//! Byte-sequence primitives shared by the matcher and the writer: prefix
//! tests, newline search, splitting content into lines, and literal
//! replacement of a pattern by another sequence.

use vstd::prelude::*;

verus! {

/// The newline byte.
pub open spec fn nl() -> u8 {
    10u8
}

/// `s` begins with `p`.
pub open spec fn starts_with(s: Seq<u8>, p: Seq<u8>) -> bool {
    p.len() <= s.len() && s.take(p.len() as int) == p
}

/// Index of the first newline in `s`, or `s.len()` if there is none.
pub open spec fn find_newline(s: Seq<u8>) -> int
    decreases s.len(),
{
    if s.len() == 0 {
        0
    } else if s[0] == nl() {
        0
    } else {
        1 + find_newline(s.skip(1))
    }
}

/// `find_newline` points at the first newline: everything before it is not a
/// newline, and it is in bounds unless `s` holds no newline at all.
pub proof fn lemma_find_newline(s: Seq<u8>)
    ensures
        0 <= find_newline(s) <= s.len(),
        find_newline(s) < s.len() ==> s[find_newline(s)] == nl(),
        forall|k: int| 0 <= k < find_newline(s) ==> s[k] != nl(),
    decreases s.len(),
{
    if s.len() == 0 {
    } else if s[0] == nl() {
    } else {
        lemma_find_newline(s.skip(1));
        assert forall|k: int| 0 <= k < find_newline(s) implies s[k] != nl() by {
            if k >= 1 {
                assert(s[k] == s.skip(1)[k - 1]);
            }
        }
    }
}

/// If no byte before `i` is a newline and `i` is either the end or a newline,
/// then `i` is exactly `find_newline(s)`.
pub proof fn lemma_find_newline_unique(s: Seq<u8>, i: int)
    requires
        0 <= i <= s.len(),
        forall|k: int| 0 <= k < i ==> s[k] != nl(),
        i < s.len() ==> s[i] == nl(),
    ensures
        find_newline(s) == i,
    decreases s.len(),
{
    if s.len() == 0 {
    } else if s[0] == nl() {
    } else {
        lemma_find_newline_unique(s.skip(1), i - 1);
    }
}

/// The lines of `s`, split on newline bytes. A trailing newline does not
/// produce an extra empty line; a file without a final newline still yields
/// its last line.
pub open spec fn split_lines(s: Seq<u8>) -> Seq<Seq<u8>>
    decreases s.len(),
{
    if s.len() == 0 {
        Seq::empty()
    } else {
        let i = find_newline(s);
        if 0 <= i < s.len() {
            seq![s.take(i)] + split_lines(s.skip(i + 1))
        } else {
            seq![s]
        }
    }
}

/// The views of a vector of byte vectors, as a sequence of byte sequences.
pub open spec fn views_of(v: Seq<Vec<u8>>) -> Seq<Seq<u8>> {
    v.map_values(|x: Vec<u8>| x@)
}

/// `n` newline bytes in a row (empty when `n <= 0`).
pub open spec fn repeat_nl(n: int) -> Seq<u8>
    decreases n,
{
    if n <= 0 {
        Seq::empty()
    } else {
        seq![nl()] + repeat_nl(n - 1)
    }
}

/// `s` with every occurrence of `pat`, found left to right without overlap,
/// replaced by `rep`. Matches are found in the original text only: text
/// introduced by a replacement is never matched again.
pub open spec fn replace_all(s: Seq<u8>, pat: Seq<u8>, rep: Seq<u8>) -> Seq<u8>
    decreases s.len(),
{
    if pat.len() == 0 || s.len() == 0 {
        s
    } else if starts_with(s, pat) {
        rep + replace_all(s.skip(pat.len() as int), pat, rep)
    } else {
        seq![s[0]] + replace_all(s.skip(1), pat, rep)
    }
}

/// Does `s` hold `p` starting at index `from`?
pub fn starts_with_at(s: &Vec<u8>, from: usize, p: &Vec<u8>) -> (r: bool)
    requires
        from <= s.len(),
    ensures
        r == starts_with(s@.skip(from as int), p@),
{
    if s.len() - from < p.len() {
        return false;
    }
    let mut j: usize = 0;
    while j < p.len()
        invariant
            from + p.len() <= s.len(),
            j <= p.len(),
            forall|k: int| 0 <= k < j ==> s@[from + k] == p@[k],
        decreases p.len() - j,
    {
        if s[from + j] != p[j] {
            assert(s@.skip(from as int).take(p@.len() as int)[j as int] != p@[j as int]);
            return false;
        }
        j += 1;
    }
    assert(s@.skip(from as int).take(p@.len() as int) =~= p@);
    true
}

/// Are two byte vectors equal?
pub fn bytes_eq(a: &Vec<u8>, b: &Vec<u8>) -> (r: bool)
    ensures
        r == (a@ == b@),
{
    if a.len() != b.len() {
        return false;
    }
    let mut j: usize = 0;
    while j < a.len()
        invariant
            a@.len() == b@.len(),
            j <= a.len(),
            forall|k: int| 0 <= k < j ==> a@[k] == b@[k],
        decreases a.len() - j,
    {
        if a[j] != b[j] {
            return false;
        }
        j += 1;
    }
    proof {
        assert(a@ =~= b@);
    }
    true
}

/// Index of the first newline at or after `from`, or `s.len()` if none.
pub fn find_newline_from(s: &Vec<u8>, from: usize) -> (r: usize)
    requires
        from <= s.len(),
    ensures
        from <= r <= s.len(),
        r - from == find_newline(s@.skip(from as int)),
{
    let mut i: usize = from;
    while i < s.len()
        invariant
            from <= i <= s.len(),
            forall|k: int| from <= k < i ==> s@[k] != 10u8,
        decreases s.len() - i,
    {
        if s[i] == 10u8 {
            proof {
                assert forall|k: int| 0 <= k < i - from implies s@.skip(from as int)[k]
                    != nl() by {
                    assert(s@.skip(from as int)[k] == s@[from + k]);
                }
                lemma_find_newline_unique(s@.skip(from as int), i - from);
            }
            return i;
        }
        i += 1;
    }
    proof {
        assert forall|k: int| 0 <= k < i - from implies s@.skip(from as int)[k] != nl() by {
            assert(s@.skip(from as int)[k] == s@[from + k]);
        }
        lemma_find_newline_unique(s@.skip(from as int), i - from);
    }
    i
}

/// Copy of `s[a..b]`.
pub fn subvec(s: &Vec<u8>, a: usize, b: usize) -> (r: Vec<u8>)
    requires
        a <= b <= s.len(),
    ensures
        r@ == s@.subrange(a as int, b as int),
{
    let mut r: Vec<u8> = Vec::new();
    let mut i: usize = a;
    while i < b
        invariant
            a <= i <= b <= s.len(),
            r@ == s@.subrange(a as int, i as int),
        decreases b - i,
    {
        r.push(s[i]);
        assert(r@ =~= s@.subrange(a as int, i + 1));
        i += 1;
    }
    r
}

/// Append all of `src` to `dst`.
pub fn append_bytes(dst: &mut Vec<u8>, src: &Vec<u8>)
    ensures
        final(dst)@ == old(dst)@ + src@,
{
    let mut i: usize = 0;
    while i < src.len()
        invariant
            i <= src.len(),
            dst@ == old(dst)@ + src@.take(i as int),
        decreases src.len() - i,
    {
        dst.push(src[i]);
        assert(dst@ =~= old(dst)@ + src@.take(i + 1));
        i += 1;
    }
    assert(old(dst)@ + src@.take(src@.len() as int) =~= old(dst)@ + src@);
}

/// Split `s` into its lines, as `split_lines` describes.
pub fn split_lines_exec(s: &Vec<u8>) -> (r: Vec<Vec<u8>>)
    ensures
        views_of(r@) == split_lines(s@),
{
    let mut r: Vec<Vec<u8>> = Vec::new();
    let mut pos: usize = 0;
    proof {
        assert(s@.skip(0) =~= s@);
        assert(views_of(r@) + split_lines(s@) =~= split_lines(s@));
    }
    while pos < s.len()
        invariant
            pos <= s.len(),
            split_lines(s@) == views_of(r@) + split_lines(s@.skip(pos as int)),
        decreases s.len() - pos,
    {
        let ghost t = s@.skip(pos as int);
        let nlpos = find_newline_from(s, pos);
        let line = subvec(s, pos, nlpos);
        proof {
            assert(t.take(nlpos - pos) =~= s@.subrange(pos as int, nlpos as int));
        }
        let ghost old_r = r@;
        r.push(line);
        proof {
            assert(views_of(r@) =~= views_of(old_r) + seq![line@]);
        }
        if nlpos == s.len() {
            proof {
                assert(t.take(nlpos - pos) =~= t);
                assert(split_lines(t) == seq![t]);
                assert(views_of(r@) + split_lines(s@.skip(s@.len() as int)) =~= views_of(
                    old_r,
                ) + seq![t]);
            }
            pos = nlpos;
            assert(split_lines(s@) == views_of(r@) + split_lines(s@.skip(pos as int)));
        } else {
            proof {
                assert(split_lines(t) == seq![t.take(nlpos - pos)] + split_lines(
                    t.skip(nlpos - pos + 1),
                ));
                assert(t.skip(nlpos - pos + 1) =~= s@.skip(nlpos + 1));
                assert(views_of(old_r) + split_lines(t) =~= views_of(r@) + split_lines(
                    s@.skip(nlpos + 1),
                ));
            }
            pos = nlpos + 1;
        }
    }
    proof {
        assert(views_of(r@) + split_lines(s@.skip(pos as int)) =~= views_of(r@));
    }
    r
}

/// Replace every occurrence of `pat` in `s` by `rep`, left to right.
pub fn replace_all_exec(s: &Vec<u8>, pat: &Vec<u8>, rep: &Vec<u8>) -> (r: Vec<u8>)
    requires
        pat.len() > 0,
    ensures
        r@ == replace_all(s@, pat@, rep@),
{
    let mut out: Vec<u8> = Vec::new();
    let mut pos: usize = 0;
    proof {
        assert(s@.skip(0) =~= s@);
        assert(out@ + replace_all(s@, pat@, rep@) =~= replace_all(s@, pat@, rep@));
    }
    while pos < s.len()
        invariant
            pos <= s.len(),
            pat@.len() > 0,
            replace_all(s@, pat@, rep@) == out@ + replace_all(s@.skip(pos as int), pat@, rep@),
        decreases s.len() - pos,
    {
        let ghost t = s@.skip(pos as int);
        let ghost old_out = out@;
        if starts_with_at(s, pos, pat) {
            append_bytes(&mut out, rep);
            proof {
                assert(t.skip(pat@.len() as int) =~= s@.skip(pos + pat@.len()));
                assert(old_out + (rep@ + replace_all(s@.skip(pos + pat@.len()), pat@, rep@)) =~= out@
                    + replace_all(s@.skip(pos + pat@.len()), pat@, rep@));
            }
            pos = pos + pat.len();
        } else {
            out.push(s[pos]);
            proof {
                assert(t.skip(1) =~= s@.skip(pos + 1));
                assert(old_out + (seq![t[0]] + replace_all(s@.skip(pos + 1), pat@, rep@)) =~= out@
                    + replace_all(s@.skip(pos + 1), pat@, rep@));
            }
            pos = pos + 1;
        }
    }
    proof {
        assert(out@ + replace_all(s@.skip(pos as int), pat@, rep@) =~= out@);
    }
    out
}

} // verus!
