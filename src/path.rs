//! Virtual paths: sequences of plain segments written with `/` between them.

use vstd::prelude::*;
use vstd::string::StrSliceExecFns;
use vstd::string::StringExecFns;

verus! {

/// The pieces of `s` between separators, empty pieces included.
pub open spec fn pieces(s: Seq<char>) -> Seq<Seq<char>>
    decreases s.len(),
{
    if s.len() == 0 {
        seq![Seq::<char>::empty()]
    } else {
        let prev = pieces(s.drop_last());
        if s.last() == '/' {
            prev.push(Seq::<char>::empty())
        } else {
            prev.update(prev.len() - 1, prev.last().push(s.last()))
        }
    }
}

/// A piece that names the current or the parent directory.
pub open spec fn is_dot_piece(p: Seq<char>) -> bool {
    p =~= seq!['.'] || p =~= seq!['.', '.']
}

/// A well-formed virtual path: no root marker and no `.` or `..` segment.
/// Repeated and trailing separators are allowed and add no segment.
pub open spec fn valid_text(s: Seq<char>) -> bool {
    &&& !(s.len() > 0 && s[0] == '/')
    &&& forall|i: int| 0 <= i < pieces(s).len() ==> !is_dot_piece(#[trigger] pieces(s)[i])
}

/// A path with a parent-directory segment is never well-formed.
pub proof fn lemma_parent_segment_invalid(s: Seq<char>, k: int)
    requires
        0 <= k < pieces(s).len(),
        pieces(s)[k] =~= seq!['.', '.'],
    ensures
        !valid_text(s),
{
    assert(is_dot_piece(pieces(s)[k]));
}

/// The non-empty members of `ps`, in order.
pub open spec fn non_empty(ps: Seq<Seq<char>>) -> Seq<Seq<char>>
    decreases ps.len(),
{
    if ps.len() == 0 {
        Seq::empty()
    } else if ps.last().len() == 0 {
        non_empty(ps.drop_last())
    } else {
        non_empty(ps.drop_last()).push(ps.last())
    }
}

/// The segments of `s`: its non-empty pieces, in order.
pub open spec fn segments(s: Seq<char>) -> Seq<Seq<char>> {
    non_empty(pieces(s))
}

/// What a vector of owned segments stands for.
pub open spec fn segs_view(v: Seq<String>) -> Seq<Seq<char>> {
    v.map_values(|x: String| x@)
}

/// Segments written out with a `/` between each two of them.
pub open spec fn join(p: Seq<Seq<char>>) -> Seq<char>
    decreases p.len(),
{
    if p.len() == 0 {
        Seq::empty()
    } else if p.len() == 1 {
        p[0]
    } else {
        join(p.drop_last()) + seq!['/'] + p.last()
    }
}

proof fn lemma_pieces_nonempty(s: Seq<char>)
    ensures
        pieces(s).len() > 0,
    decreases s.len(),
{
    if s.len() > 0 {
        lemma_pieces_nonempty(s.drop_last());
    }
}

fn is_dot_range(path: &str, start: usize, end: usize) -> (r: bool)
    requires
        start <= end <= path@.len(),
    ensures
        r == is_dot_piece(path@.subrange(start as int, end as int)),
{
    let len = end - start;
    let ghost sub = path@.subrange(start as int, end as int);
    if len == 1 {
        assert(sub =~= seq!['.'] <==> sub[0] == '.');
        path.get_char(start) == '.'
    } else if len == 2 {
        assert(sub =~= seq!['.', '.'] <==> (sub[0] == '.' && sub[1] == '.'));
        path.get_char(start) == '.' && path.get_char(start + 1) == '.'
    } else {
        false
    }
}

proof fn lemma_pieces_step(s: Seq<char>, i: int)
    requires
        0 <= i < s.len(),
    ensures
        pieces(s.subrange(0, i + 1)) == (if s[i] == '/' {
            pieces(s.subrange(0, i)).push(Seq::<char>::empty())
        } else {
            pieces(s.subrange(0, i)).update(
                pieces(s.subrange(0, i)).len() - 1,
                pieces(s.subrange(0, i)).last().push(s[i]),
            )
        }),
{
    assert(s.subrange(0, i + 1).drop_last() =~= s.subrange(0, i));
}

/// Returns `true` if `path` is a well-formed virtual path.
pub fn is_valid_path(path: &str) -> (r: bool)
    ensures
        r == valid_text(path@),
{
    let n = path.unicode_len();
    if n > 0 && path.get_char(0) == '/' {
        return false;
    }
    let mut start: usize = 0;
    let mut i: usize = 0;
    proof {
        assert(path@.subrange(0, 0) =~= Seq::<char>::empty());
    }
    while i < n
        invariant
            n == path@.len(),
            start <= i <= n,
            !(n > 0 && path@[0] == '/'),
            pieces(path@.subrange(0, i as int)).len() > 0,
            pieces(path@.subrange(0, i as int)).last() =~= path@.subrange(start as int, i as int),
            forall|k: int|
                0 <= k < pieces(path@.subrange(0, i as int)).len() - 1 ==> !is_dot_piece(
                    #[trigger] pieces(path@.subrange(0, i as int))[k],
                ),
        decreases n - i,
    {
        let c = path.get_char(i);
        proof {
            lemma_pieces_step(path@, i as int);
        }
        if c == '/' {
            if is_dot_range(path, start, i) {
                proof {
                    let ps = pieces(path@.subrange(0, i + 1));
                    assert(ps[ps.len() - 2] == pieces(path@.subrange(0, i as int)).last());
                    lemma_pieces_prefix_kept(path@, i as int + 1);
                    assert(is_dot_piece(pieces(path@)[ps.len() - 2]));
                }
                return false;
            }
            start = i + 1;
        } else {
            proof {
                assert(path@.subrange(start as int, i + 1) =~= path@.subrange(
                    start as int,
                    i as int,
                ).push(c));
            }
        }
        i = i + 1;
    }
    proof {
        assert(path@.subrange(0, n as int) =~= path@);
    }
    !is_dot_range(path, start, n)
}

/// The pieces of a prefix of `s`, but for the last, stand unchanged in the
/// pieces of `s`.
proof fn lemma_pieces_prefix_kept(s: Seq<char>, i: int)
    requires
        0 <= i <= s.len(),
    ensures
        pieces(s).len() >= pieces(s.subrange(0, i)).len(),
        forall|k: int|
            0 <= k < pieces(s.subrange(0, i)).len() - 1 ==> #[trigger] pieces(s)[k] == pieces(
                s.subrange(0, i),
            )[k],
    decreases s.len() - i,
{
    if i < s.len() {
        lemma_pieces_step(s, i);
        lemma_pieces_prefix_kept(s, i + 1);
        lemma_pieces_nonempty(s.subrange(0, i));
    } else {
        assert(s.subrange(0, i) =~= s);
    }
}

/// Splits a well-formed virtual path into its segments; `None` where the
/// path is not well-formed.
pub fn parse_path(path: &str) -> (r: Option<Vec<String>>)
    ensures
        r is Some <==> valid_text(path@),
        r matches Some(v) ==> segs_view(v@) == segments(path@),
{
    if !is_valid_path(path) {
        return None;
    }
    let n = path.unicode_len();
    let mut out: Vec<String> = Vec::new();
    let mut start: usize = 0;
    let mut i: usize = 0;
    proof {
        assert(path@.subrange(0, 0) =~= Seq::<char>::empty());
        assert(segs_view(out@) =~= Seq::empty());
    }
    while i < n
        invariant
            n == path@.len(),
            start <= i <= n,
            pieces(path@.subrange(0, i as int)).len() > 0,
            pieces(path@.subrange(0, i as int)).last() =~= path@.subrange(start as int, i as int),
            segs_view(out@) == non_empty(pieces(path@.subrange(0, i as int)).drop_last()),
        decreases n - i,
    {
        let c = path.get_char(i);
        let ghost ps = pieces(path@.subrange(0, i as int));
        proof {
            lemma_pieces_step(path@, i as int);
        }
        if c == '/' {
            if start < i {
                let seg = path.substring_char(start, i).to_owned();
                let ghost before = out@;
                out.push(seg);
                proof {
                    assert(segs_view(out@) =~= segs_view(before).push(seg@));
                }
            }
            proof {
                assert(pieces(path@.subrange(0, i + 1)).drop_last() =~= ps);
            }
            start = i + 1;
        } else {
            proof {
                assert(path@.subrange(start as int, i + 1) =~= path@.subrange(
                    start as int,
                    i as int,
                ).push(c));
                assert(pieces(path@.subrange(0, i + 1)).drop_last() =~= ps.drop_last());
            }
        }
        i = i + 1;
    }
    proof {
        assert(path@.subrange(0, n as int) =~= path@);
    }
    if start < n {
        let seg = path.substring_char(start, n).to_owned();
        let ghost before = out@;
        out.push(seg);
        proof {
            assert(segs_view(out@) =~= segs_view(before).push(seg@));
        }
    }
    Some(out)
}

/// Writes out the segments of `segs` from index `from` on, with a `/`
/// between each two of them.
pub fn join_from(segs: &Vec<String>, from: usize) -> (r: String)
    requires
        from <= segs@.len(),
    ensures
        r@ == join(segs_view(segs@).subrange(from as int, segs@.len() as int)),
{
    let mut out = String::new();
    let mut i: usize = from;
    proof {
        assert(segs_view(segs@).subrange(from as int, from as int) =~= Seq::<Seq<char>>::empty());
    }
    while i < segs.len()
        invariant
            from <= i <= segs@.len(),
            out@ == join(segs_view(segs@).subrange(from as int, i as int)),
        decreases segs@.len() - i,
    {
        let ghost q = segs_view(segs@).subrange(from as int, i as int);
        let ghost q2 = segs_view(segs@).subrange(from as int, i + 1);
        proof {
            assert(q2.drop_last() =~= q);
        }
        if i > from {
            out.append("/");
            proof {
                reveal_strlit("/");
            }
        }
        out.append(segs[i].as_str());
        proof {
            if i == from {
                assert(out@ =~= q2[0]);
            } else {
                assert(out@ =~= join(q) + seq!['/'] + q2.last());
            }
        }
        i = i + 1;
    }
    out
}

} // verus!
