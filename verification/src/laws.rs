//! The library's laws: what holds of the matcher and the writer together.
//! The central results are that the writer's placement honours the shebang
//! conventions, that the writer refuses content that already begins with
//! the comment prefix, and that a header the writer inserts always passes
//! the matcher afterwards — which also makes the writer idempotent.

use vstd::prelude::*;

use crate::errors::HeaderErr;
use crate::pattern::author_pat;
use crate::pattern::is_author_seg;
use crate::pattern::is_wst;
use crate::pattern::is_year_seg;
use crate::pattern::line_matches;
use crate::pattern::matches_from;
use crate::pattern::shebang_pat;
use crate::pattern::tokenize;
use crate::pattern::year_pat;
use crate::pattern::Token;
use crate::text::find_newline;
use crate::text::lemma_find_newline;
use crate::text::lemma_find_newline_unique;
use crate::text::nl;
use crate::text::repeat_nl;
use crate::text::replace_all;
use crate::text::split_lines;
use crate::text::starts_with;

verus! {

/// `s` holds no newline byte.
pub open spec fn no_nl(s: Seq<u8>) -> bool {
    forall|i: int| 0 <= i < s.len() ==> s[i] != nl()
}

/// Every `{` in `s` begins one of the two placeholder spellings.
pub open spec fn placeholders_only(s: Seq<u8>) -> bool {
    forall|q: int|
        0 <= q < s.len() && s[q] == 123u8 ==> starts_with(#[trigger] s.skip(q), author_pat())
            || starts_with(s.skip(q), year_pat())
}

/// Replacement keeps text newline-free when the replacement text is.
pub proof fn lemma_no_nl_replace(s: Seq<u8>, pat: Seq<u8>, rep: Seq<u8>)
    requires
        no_nl(s),
        no_nl(rep),
    ensures
        no_nl(replace_all(s, pat, rep)),
    decreases s.len(),
{
    if pat.len() == 0 || s.len() == 0 {
    } else if starts_with(s, pat) {
        assert forall|i: int| 0 <= i < s.skip(pat.len() as int).len() implies s.skip(
            pat.len() as int,
        )[i] != nl() by {
            assert(s.skip(pat.len() as int)[i] == s[pat.len() + i]);
        }
        lemma_no_nl_replace(s.skip(pat.len() as int), pat, rep);
    } else {
        assert forall|i: int| 0 <= i < s.skip(1).len() implies s.skip(1)[i] != nl() by {
            assert(s.skip(1)[i] == s[1 + i]);
        }
        lemma_no_nl_replace(s.skip(1), pat, rep);
    }
}

/// Replacement keeps nonempty text nonempty when the replacement text is
/// nonempty.
pub proof fn lemma_replace_nonempty(s: Seq<u8>, pat: Seq<u8>, rep: Seq<u8>)
    requires
        s.len() > 0,
        rep.len() > 0,
    ensures
        replace_all(s, pat, rep).len() > 0,
{
}

/// The first `m` bytes of `s` start no occurrence of `pat`, so replacement
/// copies them unchanged.
pub proof fn lemma_replace_copy(s: Seq<u8>, pat: Seq<u8>, rep: Seq<u8>, m: int)
    requires
        pat.len() > 0,
        0 <= m <= s.len(),
        forall|q: int| 0 <= q < m ==> !starts_with(#[trigger] s.skip(q), pat),
    ensures
        replace_all(s, pat, rep) == s.take(m) + replace_all(s.skip(m), pat, rep),
    decreases m,
{
    if m == 0 {
        assert(s.skip(0) =~= s);
        assert(s.take(0) + replace_all(s, pat, rep) =~= replace_all(s, pat, rep));
    } else {
        assert(s.skip(0) =~= s);
        assert(!starts_with(s, pat));
        assert forall|q: int| 0 <= q < m - 1 implies !starts_with(
            #[trigger] s.skip(1).skip(q),
            pat,
        ) by {
            assert(s.skip(1).skip(q) =~= s.skip(1 + q));
        }
        lemma_replace_copy(s.skip(1), pat, rep, m - 1);
        assert(seq![s[0]] + (s.skip(1).take(m - 1) + replace_all(s.skip(1).skip(m - 1), pat, rep))
            =~= s.take(m) + replace_all(s.skip(m), pat, rep)) by {
            assert(s.skip(1).take(m - 1) =~= s.subrange(1, m));
            assert(seq![s[0]] + s.subrange(1, m) =~= s.take(m));
            assert(s.skip(1).skip(m - 1) =~= s.skip(m));
        }
    }
}

/// Replacement distributes over a newline that the pattern cannot span.
pub proof fn lemma_replace_line(l: Seq<u8>, rest: Seq<u8>, pat: Seq<u8>, rep: Seq<u8>)
    requires
        no_nl(l),
        no_nl(pat),
        pat.len() > 0,
    ensures
        replace_all(l + seq![nl()] + rest, pat, rep) == replace_all(l, pat, rep) + seq![nl()]
            + replace_all(rest, pat, rep),
    decreases l.len(),
{
    let x = l + seq![nl()] + rest;
    if l.len() == 0 {
        assert(x =~= seq![nl()] + rest);
        assert(x[0] == nl());
        assert(!starts_with(x, pat)) by {
            if starts_with(x, pat) {
                assert(x.take(pat.len() as int)[0] == x[0]);
            }
        }
        assert(x.skip(1) =~= rest);
        assert(replace_all(x, pat, rep) == seq![nl()] + replace_all(rest, pat, rep));
        assert(replace_all(l, pat, rep) + seq![nl()] + replace_all(rest, pat, rep) =~= seq![nl()]
            + replace_all(rest, pat, rep));
    } else if starts_with(x, pat) {
        assert(pat.len() <= l.len()) by {
            if pat.len() > l.len() {
                assert(x.take(pat.len() as int)[l.len() as int] == x[l.len() as int]);
                assert(x[l.len() as int] == nl());
                assert(pat[l.len() as int] != nl());
            }
        }
        assert(starts_with(l, pat)) by {
            assert(l.take(pat.len() as int) =~= x.take(pat.len() as int));
        }
        let m = pat.len() as int;
        assert(x.skip(m) =~= l.skip(m) + seq![nl()] + rest);
        assert forall|i: int| 0 <= i < l.skip(m).len() implies l.skip(m)[i] != nl() by {
            assert(l.skip(m)[i] == l[m + i]);
        }
        lemma_replace_line(l.skip(m), rest, pat, rep);
        assert(rep + (replace_all(l.skip(m), pat, rep) + seq![nl()] + replace_all(rest, pat, rep))
            =~= (rep + replace_all(l.skip(m), pat, rep)) + seq![nl()] + replace_all(
            rest,
            pat,
            rep,
        ));
    } else {
        assert(!starts_with(l, pat)) by {
            if starts_with(l, pat) {
                assert(x.take(pat.len() as int) =~= l.take(pat.len() as int));
            }
        }
        assert(x[0] == l[0]);
        assert(x.skip(1) =~= l.skip(1) + seq![nl()] + rest);
        assert forall|i: int| 0 <= i < l.skip(1).len() implies l.skip(1)[i] != nl() by {
            assert(l.skip(1)[i] == l[1 + i]);
        }
        lemma_replace_line(l.skip(1), rest, pat, rep);
        assert(seq![l[0]] + (replace_all(l.skip(1), pat, rep) + seq![nl()] + replace_all(
            rest,
            pat,
            rep,
        )) =~= (seq![l[0]] + replace_all(l.skip(1), pat, rep)) + seq![nl()] + replace_all(
            rest,
            pat,
            rep,
        ));
    }
}

/// A newline-free text splits into the single line it is.
pub proof fn lemma_split_single(s: Seq<u8>)
    requires
        no_nl(s),
        s.len() > 0,
    ensures
        split_lines(s) == seq![s],
{
    lemma_find_newline_unique(s, s.len() as int);
}

/// Splitting peels off one leading newline-free line.
pub proof fn lemma_split_line(l: Seq<u8>, rest: Seq<u8>)
    requires
        no_nl(l),
    ensures
        split_lines(l + seq![nl()] + rest) == seq![l] + split_lines(rest),
{
    let x = l + seq![nl()] + rest;
    assert forall|k: int| 0 <= k < l.len() implies x[k] != nl() by {
        assert(x[k] == l[k]);
    }
    assert(x[l.len() as int] == nl());
    lemma_find_newline_unique(x, l.len() as int);
    assert(x.take(l.len() as int) =~= l);
    assert(x.skip(l.len() as int + 1) =~= rest);
}

/// Every line that splitting yields is newline-free.
pub proof fn lemma_split_no_nl(s: Seq<u8>)
    ensures
        forall|i: int| 0 <= i < split_lines(s).len() ==> no_nl(#[trigger] split_lines(s)[i]),
    decreases s.len(),
{
    if s.len() == 0 {
    } else {
        lemma_find_newline(s);
        let i = find_newline(s);
        assert forall|k: int| 0 <= k < s.take(i).len() implies s.take(i)[k] != nl() by {
            assert(s.take(i)[k] == s[k]);
        }
        if i < s.len() {
            lemma_split_no_nl(s.skip(i + 1));
            assert forall|j: int| 0 <= j < split_lines(s).len() implies no_nl(
                #[trigger] split_lines(s)[j],
            ) by {
                if j == 0 {
                    assert(split_lines(s)[0] == s.take(i));
                } else {
                    assert(split_lines(s)[j] == split_lines(s.skip(i + 1))[j - 1]);
                }
            }
        } else {
            assert(split_lines(s) == seq![s]);
            assert(no_nl(s));
        }
    }
}

/// Replacement acts line by line: splitting the replaced text yields the
/// replaced lines of the original, when neither the pattern nor the
/// replacement holds a newline and the replacement is nonempty.
pub proof fn lemma_split_replace(s: Seq<u8>, pat: Seq<u8>, rep: Seq<u8>)
    requires
        pat.len() > 0,
        rep.len() > 0,
        no_nl(pat),
        no_nl(rep),
    ensures
        split_lines(replace_all(s, pat, rep)) == Seq::new(
            split_lines(s).len(),
            |i: int| replace_all(split_lines(s)[i], pat, rep),
        ),
    decreases s.len(),
{
    if s.len() == 0 {
        assert(split_lines(replace_all(s, pat, rep)) =~= Seq::new(
            split_lines(s).len(),
            |i: int| replace_all(split_lines(s)[i], pat, rep),
        ));
    } else {
        lemma_find_newline(s);
        let i = find_newline(s);
        let l = s.take(i);
        assert forall|k: int| 0 <= k < l.len() implies l[k] != nl() by {
            assert(l[k] == s[k]);
        }
        if i < s.len() {
            let rest = s.skip(i + 1);
            assert(s =~= l + seq![nl()] + rest);
            lemma_replace_line(l, rest, pat, rep);
            lemma_no_nl_replace(l, pat, rep);
            lemma_split_line(replace_all(l, pat, rep), replace_all(rest, pat, rep));
            lemma_split_replace(rest, pat, rep);
            assert(split_lines(replace_all(s, pat, rep)) =~= Seq::new(
                split_lines(s).len(),
                |j: int| replace_all(split_lines(s)[j], pat, rep),
            )) by {
                assert(split_lines(s) == seq![l] + split_lines(rest));
                assert(split_lines(replace_all(s, pat, rep)) == seq![
                    replace_all(l, pat, rep),
                ] + split_lines(replace_all(rest, pat, rep)));
                assert forall|j: int|
                    0 <= j < split_lines(s).len() implies split_lines(replace_all(s, pat, rep))[j]
                    == replace_all(split_lines(s)[j], pat, rep) by {
                    if j == 0 {
                        assert(split_lines(s)[0] == l);
                    } else {
                        assert(split_lines(s)[j] == split_lines(rest)[j - 1]);
                        assert(split_lines(replace_all(s, pat, rep))[j] == split_lines(
                            replace_all(rest, pat, rep),
                        )[j - 1]);
                    }
                }
            }
        } else {
            assert(no_nl(s));
            lemma_no_nl_replace(s, pat, rep);
            lemma_replace_nonempty(s, pat, rep);
            lemma_split_single(replace_all(s, pat, rep));
            assert(split_lines(s) == seq![s]);
            assert(split_lines(replace_all(s, pat, rep)) =~= Seq::new(
                split_lines(s).len(),
                |j: int| replace_all(split_lines(s)[j], pat, rep),
            ));
        }
    }
}

/// One literal token for each byte of `u`.
pub open spec fn lits(u: Seq<u8>) -> Seq<Token> {
    Seq::new(u.len(), |i: int| Token::Lit(u[i]))
}

/// A brace-free prefix tokenizes to literals, followed by the rest's
/// tokens.
pub proof fn lemma_tokenize_app(u: Seq<u8>, v: Seq<u8>)
    requires
        forall|q: int| 0 <= q < u.len() ==> u[q] != 123u8,
    ensures
        tokenize(u + v) == lits(u) + tokenize(v),
    decreases u.len(),
{
    let x = u + v;
    if u.len() == 0 {
        assert(x =~= v);
        assert(lits(u) + tokenize(v) =~= tokenize(v));
    } else {
        assert(x[0] == u[0]);
        assert(!starts_with(x, author_pat())) by {
            if starts_with(x, author_pat()) {
                assert(x.take(author_pat().len() as int)[0] == x[0]);
            }
        }
        assert(!starts_with(x, year_pat())) by {
            if starts_with(x, year_pat()) {
                assert(x.take(year_pat().len() as int)[0] == x[0]);
            }
        }
        assert(x.skip(1) =~= u.skip(1) + v);
        assert forall|q: int| 0 <= q < u.skip(1).len() implies u.skip(1)[q] != 123u8 by {
            assert(u.skip(1)[q] == u[1 + q]);
        }
        lemma_tokenize_app(u.skip(1), v);
        assert(seq![Token::Lit(u[0])] + (lits(u.skip(1)) + tokenize(v)) =~= lits(u) + tokenize(
            v,
        )) by {
            assert forall|j: int| 0 <= j < lits(u).len() implies (seq![Token::Lit(u[0])] + lits(
                u.skip(1),
            ))[j] == lits(u)[j] by {
                if j > 0 {
                    assert(u.skip(1)[j - 1] == u[j]);
                }
            }
        }
    }
}

/// Literal tokens for `u` consume `u` itself, and the rest of the match
/// carries on.
pub proof fn lemma_lit_match(u: Seq<u8>, ts: Seq<Token>, x: Seq<u8>)
    requires
        matches_from(ts, x),
    ensures
        matches_from(lits(u) + ts, u + x),
    decreases u.len(),
{
    if u.len() == 0 {
        assert(lits(u) + ts =~= ts);
        assert(u + x =~= x);
    } else {
        assert forall|q: int| 0 <= q < u.skip(1).len() implies u.skip(1)[q] == u[1 + q] by {}
        lemma_lit_match(u.skip(1), ts, x);
        let big = lits(u) + ts;
        let s = u + x;
        assert(big[0] == Token::Lit(u[0]));
        assert(s[0] == u[0]);
        assert(big.skip(1) =~= lits(u.skip(1)) + ts) by {
            assert forall|j: int| 0 <= j < big.skip(1).len() implies big.skip(1)[j] == (lits(
                u.skip(1),
            ) + ts)[j] by {
                if j < u.len() - 1 {
                    assert(big.skip(1)[j] == lits(u)[j + 1]);
                    assert(u.skip(1)[j] == u[j + 1]);
                }
            }
        }
        assert(s.skip(1) =~= u.skip(1) + x);
        assert(matches_from(big, s));
    }
}

/// The substituted form of a template line, with a valid author text and a
/// valid year put in for the placeholders, matches the line's own token
/// pattern from its first byte on.
pub proof fn lemma_subst_matches(line: Seq<u8>, a: Seq<u8>, y: Seq<u8>)
    requires
        placeholders_only(line),
        is_author_seg(a),
        is_year_seg(y),
    ensures
        matches_from(tokenize(line), crate::writer::subst(line, a, y)),
    decreases line.len(),
{
    let apat = author_pat();
    let ypat = year_pat();
    if line.len() == 0 {
    } else if starts_with(line, apat) {
        let m = apat.len() as int;
        let z = replace_all(line.skip(m), apat, a);
        assert(replace_all(line, apat, a) == a + z);
        assert forall|q: int| 0 <= q < a.len() implies !starts_with(
            #[trigger] (a + z).skip(q),
            ypat,
        ) by {
            assert((a + z).skip(q)[0] == a[q]);
            assert(is_wst(a[q]));
            if starts_with((a + z).skip(q), ypat) {
                assert((a + z).skip(q).take(ypat.len() as int)[0] == (a + z).skip(q)[0]);
            }
        }
        lemma_replace_copy(a + z, ypat, y, a.len() as int);
        assert((a + z).take(a.len() as int) =~= a);
        assert((a + z).skip(a.len() as int) =~= z);
        assert(crate::writer::subst(line, a, y) == a + replace_all(z, ypat, y));
        assert forall|q: int|
            0 <= q < line.skip(m).len() && line.skip(m)[q] == 123u8 implies starts_with(
            #[trigger] line.skip(m).skip(q),
            apat,
        ) || starts_with(line.skip(m).skip(q), ypat) by {
            assert(line.skip(m)[q] == line[m + q]);
            assert(line.skip(m).skip(q) =~= line.skip(m + q));
        }
        lemma_subst_matches(line.skip(m), a, y);
        let ts = tokenize(line);
        let s = a + replace_all(z, ypat, y);
        assert(ts[0] == Token::Author);
        assert(ts.skip(1) =~= tokenize(line.skip(m)));
        assert(s.take(a.len() as int) =~= a);
        assert(s.skip(a.len() as int) =~= replace_all(z, ypat, y));
        assert(1 <= a.len() <= s.len());
        assert(is_author_seg(s.take(a.len() as int)));
        assert(matches_from(ts.skip(1), s.skip(a.len() as int)));
        assert(matches_from(ts, s));
    } else if starts_with(line, ypat) {
        let m = ypat.len() as int;
        assert forall|q: int| 0 <= q < m implies !starts_with(#[trigger] line.skip(q), apat) by {
            if q == 0 {
                assert(line.skip(0) =~= line);
            } else {
                assert(line.take(m)[q] == line[q]);
                assert(ypat[q] != 123u8);
                if starts_with(line.skip(q), apat) {
                    assert(line.skip(q).take(apat.len() as int)[0] == line[q]);
                }
            }
        }
        lemma_replace_copy(line, apat, a, m);
        assert(line.take(m) =~= ypat);
        let z = replace_all(line.skip(m), apat, a);
        assert(replace_all(line, apat, a) == ypat + z);
        assert(starts_with(ypat + z, ypat)) by {
            assert((ypat + z).take(m) =~= ypat);
        }
        assert((ypat + z).skip(m) =~= z);
        assert(crate::writer::subst(line, a, y) == y + replace_all(z, ypat, y));
        assert forall|q: int|
            0 <= q < line.skip(m).len() && line.skip(m)[q] == 123u8 implies starts_with(
            #[trigger] line.skip(m).skip(q),
            apat,
        ) || starts_with(line.skip(m).skip(q), ypat) by {
            assert(line.skip(m)[q] == line[m + q]);
            assert(line.skip(m).skip(q) =~= line.skip(m + q));
        }
        lemma_subst_matches(line.skip(m), a, y);
        let ts = tokenize(line);
        let s = y + replace_all(z, ypat, y);
        assert(ts[0] == Token::Year);
        assert(ts.skip(1) =~= tokenize(line.skip(m)));
        assert(s.take(4) =~= y);
        assert(s.skip(4) =~= replace_all(z, ypat, y));
        assert(is_year_seg(s.take(4)));
        assert(matches_from(ts.skip(1), s.skip(4)));
        assert(matches_from(ts, s));
    } else {
        assert(line[0] != 123u8) by {
            assert(line.skip(0) =~= line);
        }
        assert(!starts_with(line, apat)) by {
            if starts_with(line, apat) {
                assert(line.take(apat.len() as int)[0] == line[0]);
            }
        }
        lemma_replace_copy(line, apat, a, 1);
        let z = replace_all(line.skip(1), apat, a);
        assert(replace_all(line, apat, a) =~= seq![line[0]] + z) by {
            assert(line.take(1) =~= seq![line[0]]);
        }
        assert forall|q: int| 0 <= q < 1 implies !starts_with(
            #[trigger] (seq![line[0]] + z).skip(q),
            ypat,
        ) by {
            assert((seq![line[0]] + z).skip(0) =~= seq![line[0]] + z);
            assert((seq![line[0]] + z)[0] == line[0]);
            if starts_with(seq![line[0]] + z, ypat) {
                assert((seq![line[0]] + z).take(ypat.len() as int)[0] == line[0]);
            }
        }
        lemma_replace_copy(seq![line[0]] + z, ypat, y, 1);
        assert((seq![line[0]] + z).take(1) =~= seq![line[0]]);
        assert((seq![line[0]] + z).skip(1) =~= z);
        assert(crate::writer::subst(line, a, y) == seq![line[0]] + replace_all(z, ypat, y));
        assert forall|q: int|
            0 <= q < line.skip(1).len() && line.skip(1)[q] == 123u8 implies starts_with(
            #[trigger] line.skip(1).skip(q),
            apat,
        ) || starts_with(line.skip(1).skip(q), ypat) by {
            assert(line.skip(1)[q] == line[1 + q]);
            assert(line.skip(1).skip(q) =~= line.skip(1 + q));
        }
        lemma_subst_matches(line.skip(1), a, y);
        let ts = tokenize(line);
        let s = seq![line[0]] + replace_all(z, ypat, y);
        assert(ts[0] == Token::Lit(line[0]));
        assert(ts.skip(1) =~= tokenize(line.skip(1)));
        assert(s[0] == line[0]);
        assert(s.skip(1) =~= replace_all(z, ypat, y));
        assert(matches_from(ts, s));
    }
}

/// When each file line from `idx` on matches its template line's pattern,
/// the template check passes.
pub proof fn lemma_check_ok(tl: Seq<Seq<u8>>, cm: Seq<u8>, lines: Seq<Seq<u8>>, idx: int)
    requires
        0 <= idx,
        idx + tl.len() <= lines.len(),
        forall|i: int|
            0 <= i < tl.len() ==> line_matches(
                tokenize(crate::lint::prefixed(cm, #[trigger] tl[i])),
                lines[idx + i],
            ),
    ensures
        crate::lint::check_template_lines(tl, cm, lines, idx) is Ok,
    decreases tl.len(),
{
    if tl.len() == 0 {
    } else {
        assert(line_matches(tokenize(crate::lint::prefixed(cm, tl[0])), lines[idx]));
        assert forall|i: int| 0 <= i < tl.skip(1).len() implies line_matches(
            tokenize(crate::lint::prefixed(cm, #[trigger] tl.skip(1)[i])),
            lines[idx + 1 + i],
        ) by {
            assert(tl.skip(1)[i] == tl[i + 1]);
        }
        lemma_check_ok(tl.skip(1), cm, lines, idx + 1);
    }
}

/// The header block splits into its prefixed lines, followed by whatever
/// the tail splits into.
pub proof fn lemma_block_split(hl: Seq<Seq<u8>>, cm: Seq<u8>, tail: Seq<u8>)
    requires
        no_nl(cm),
        forall|i: int| 0 <= i < hl.len() ==> no_nl(#[trigger] hl[i]),
    ensures
        split_lines(crate::writer::header_block(hl, cm) + tail) == Seq::new(
            hl.len(),
            |i: int| crate::lint::prefixed(cm, hl[i]),
        ) + split_lines(tail),
    decreases hl.len(),
{
    if hl.len() == 0 {
        assert(crate::writer::header_block(hl, cm) + tail =~= tail);
        assert(Seq::new(0, |i: int| crate::lint::prefixed(cm, hl[i])) + split_lines(tail) =~=
            split_lines(tail));
    } else {
        let p0 = crate::lint::prefixed(cm, hl[0]);
        assert(no_nl(p0)) by {
            assert forall|k: int| 0 <= k < p0.len() implies p0[k] != nl() by {
                if k < cm.len() {
                    assert(p0[k] == cm[k]);
                } else if k == cm.len() {
                    assert(p0[k] == 32u8);
                } else {
                    assert(p0[k] == hl[0][k - cm.len() - 1]);
                }
            }
        }
        let rest_block = crate::writer::header_block(hl.skip(1), cm);
        assert(crate::writer::header_block(hl, cm) + tail =~= p0 + seq![nl()] + (rest_block
            + tail));
        lemma_split_line(p0, rest_block + tail);
        assert forall|i: int| 0 <= i < hl.skip(1).len() implies no_nl(#[trigger] hl.skip(1)[i]) by {
            assert(hl.skip(1)[i] == hl[i + 1]);
        }
        lemma_block_split(hl.skip(1), cm, tail);
        assert(split_lines(crate::writer::header_block(hl, cm) + tail) =~= Seq::new(
            hl.len(),
            |i: int| crate::lint::prefixed(cm, hl[i]),
        ) + split_lines(tail)) by {
            assert forall|j: int|
                0 <= j < split_lines(crate::writer::header_block(hl, cm) + tail).len() implies
                split_lines(crate::writer::header_block(hl, cm) + tail)[j] == (Seq::new(
                hl.len(),
                |i: int| crate::lint::prefixed(cm, hl[i]),
            ) + split_lines(tail))[j] by {
                if j >= 1 {
                    assert(split_lines(crate::writer::header_block(hl, cm) + tail)[j]
                        == split_lines(rest_block + tail)[j - 1]);
                    if j < hl.len() {
                        assert(hl.skip(1)[j - 1] == hl[j]);
                    }
                }
            }
        }
    }
}

/// Once the file's lines are known to consist of the consumed shebang
/// lines, one matching line per template line, and a conforming tail, the
/// matcher accepts.
proof fn lemma_lint_ok_parts(
    template: Seq<u8>,
    nl_shebang: bool,
    nl_template: bool,
    comment: Seq<u8>,
    lines: Seq<Seq<u8>>,
    start: int,
)
    requires
        lines.len() >= 1,
        start == crate::lint::shebang_consumed(nl_shebang, lines),
        starts_with(lines[0], shebang_pat()) && nl_shebang ==> lines.len() >= 2 && lines[1].len()
            == 0,
        start + split_lines(template).len() <= lines.len(),
        forall|i: int|
            0 <= i < split_lines(template).len() ==> line_matches(
                tokenize(crate::lint::prefixed(comment, #[trigger] split_lines(template)[i])),
                lines[start + i],
            ),
        nl_template ==> (start + split_lines(template).len() == lines.len() || lines[start
            + split_lines(template).len()].len() == 0),
    ensures
        crate::lint::lint_spec(template, nl_shebang, nl_template, comment, lines) is Ok,
{
    lemma_check_ok(split_lines(template), comment, lines, start);
}

/// Round trip at the core: whatever placement the writer computed, the
/// content it produces passes the matcher, provided the author text and
/// year fit their placeholders, every `{` in the template opens a
/// placeholder, and the comment prefix is newline-free, brace-free and
/// does not begin like a shebang.
#[verifier::rlimit(100)]
pub proof fn lemma_round_trip_core(
    template: Seq<u8>,
    nl_shebang: bool,
    nl_template: bool,
    comment: Seq<u8>,
    content: Seq<u8>,
    a: Seq<u8>,
    y: Seq<u8>,
    p: crate::writer::PlanSpec,
)
    requires
        crate::writer::plan_spec(nl_shebang, nl_template, comment, content) == Ok::<
            crate::writer::PlanSpec,
            HeaderErr,
        >(p),
        is_author_seg(a),
        is_year_seg(y),
        template.len() > 0,
        no_nl(comment),
        forall|q: int| 0 <= q < comment.len() ==> comment[q] != 123u8,
        !starts_with(comment, shebang_pat()),
        forall|i: int|
            0 <= i < split_lines(template).len() ==> placeholders_only(
                #[trigger] split_lines(template)[i],
            ),
    ensures
        crate::lint::lint_spec(
            template,
            nl_shebang,
            nl_template,
            comment,
            split_lines(
                crate::writer::spliced(
                    content,
                    p.loc,
                    crate::writer::insertion_spec(template, comment, a, y, p.pre, p.post),
                ),
            ),
        ) is Ok,
{
    let apat = author_pat();
    let ypat = year_pat();
    assert(no_nl(apat));
    assert(no_nl(ypat));
    assert(no_nl(a)) by {
        assert forall|k: int| 0 <= k < a.len() implies a[k] != nl() by {
            assert(is_wst(a[k]));
        }
    }
    assert(no_nl(y)) by {
        assert forall|k: int| 0 <= k < y.len() implies y[k] != nl() by {
            assert(48 <= y[k] <= 57);
        }
    }
    let tl = split_lines(template);
    let n = tl.len() as int;
    assert(n >= 1);
    let x1 = replace_all(template, apat, a);
    lemma_split_replace(template, apat, a);
    lemma_split_replace(x1, ypat, y);
    let sub = crate::writer::subst(template, a, y);
    let hl = split_lines(sub);
    assert(hl.len() == n);
    assert forall|i: int| 0 <= i < n implies #[trigger] hl[i] == crate::writer::subst(
        tl[i],
        a,
        y,
    ) by {
        assert(split_lines(x1)[i] == replace_all(tl[i], apat, a));
        assert(hl[i] == replace_all(split_lines(x1)[i], ypat, y));
    }
    lemma_split_no_nl(template);
    assert forall|i: int| 0 <= i < n implies no_nl(#[trigger] hl[i]) by {
        lemma_no_nl_replace(tl[i], apat, a);
        lemma_no_nl_replace(replace_all(tl[i], apat, a), ypat, y);
    }
    let cmsp = comment + seq![32u8];
    assert forall|q: int| 0 <= q < cmsp.len() implies cmsp[q] != 123u8 by {
        if q < comment.len() {
            assert(cmsp[q] == comment[q]);
        } else {
            assert(cmsp[q] == 32u8);
        }
    }
    let bl = Seq::new(n as nat, |i: int| crate::lint::prefixed(comment, hl[i]));
    assert forall|i: int| 0 <= i < n implies line_matches(
        tokenize(crate::lint::prefixed(comment, #[trigger] tl[i])),
        bl[i],
    ) by {
        lemma_subst_matches(tl[i], a, y);
        lemma_tokenize_app(cmsp, tl[i]);
        assert(cmsp + tl[i] =~= crate::lint::prefixed(comment, tl[i]));
        lemma_lit_match(cmsp, tokenize(tl[i]), crate::writer::subst(tl[i], a, y));
        assert(cmsp + crate::writer::subst(tl[i], a, y) =~= crate::lint::prefixed(comment, hl[i]));
        let pline = crate::lint::prefixed(comment, hl[i]);
        assert(pline.skip(0) =~= pline);
        assert(matches_from(tokenize(crate::lint::prefixed(comment, tl[i])), pline.skip(0)));
        assert(bl[i] == pline);
    }
    assert forall|i: int| 0 <= i < n implies !starts_with(#[trigger] bl[i], shebang_pat()) by {
        let pl = crate::lint::prefixed(comment, hl[i]);
        assert(bl[i] == pl);
        if starts_with(pl, shebang_pat()) {
            assert(pl.take(2)[0] == pl[0]);
            assert(pl.take(2)[1] == pl[1]);
            assert(pl[0] == 35u8 && pl[1] == 33u8);
            if comment.len() == 0 {
                assert(pl[0] == 32u8);
            } else if comment.len() == 1 {
                assert(pl[0] == comment[0]);
                assert(pl[1] == 32u8);
            } else {
                assert(pl[0] == comment[0]);
                assert(pl[1] == comment[1]);
                assert(comment.take(2) =~= shebang_pat());
            }
        }
    }
    let placement = crate::writer::shebang_placement(nl_shebang, content);
    assert(p.loc == placement.0 && p.pre == placement.1);
    let post = p.post;
    assert(repeat_nl(0) =~= Seq::<u8>::empty());
    assert(repeat_nl(1) =~= seq![nl()]);
    assert(repeat_nl(2) =~= seq![nl()] + seq![nl()]);
    let ins = crate::writer::insertion_spec(template, comment, a, y, p.pre, p.post);
    let out = crate::writer::spliced(content, p.loc, ins);
    let block = crate::writer::header_block(hl, comment);
    let cpart = content.skip(p.loc);
    let tail = repeat_nl(post) + cpart;
    lemma_block_split(hl, comment, tail);
    let ts = split_lines(tail);
    assert(split_lines(block + tail) == bl + ts);
    assert(nl_template ==> ts.len() >= 1 && ts[0].len() == 0) by {
        if nl_template {
            if post == 1 {
                assert(tail =~= Seq::<u8>::empty() + seq![nl()] + cpart);
                lemma_split_line(Seq::<u8>::empty(), cpart);
                assert(ts[0] == Seq::<u8>::empty());
            } else {
                assert(starts_with(cpart, seq![nl()]));
                assert(cpart.take(1)[0] == cpart[0]);
                assert(cpart[0] == nl());
                lemma_find_newline_unique(cpart, 0);
                assert(tail =~= cpart);
                assert(split_lines(cpart)[0] == cpart.take(0));
            }
        }
    }
    if !starts_with(content, shebang_pat()) {
        assert(p.loc == 0 && p.pre == 0);
        assert(out =~= block + tail) by {
            assert(content.take(0) =~= Seq::<u8>::empty());
            assert(content.skip(0) =~= cpart);
        }
        let lines = split_lines(out);
        assert(lines == bl + ts);
        assert(lines[0] == bl[0]);
        assert(crate::lint::shebang_consumed(nl_shebang, lines) == 0);
        assert forall|i: int| 0 <= i < n implies line_matches(
            tokenize(crate::lint::prefixed(comment, #[trigger] tl[i])),
            lines[0 + i],
        ) by {
            assert(lines[i] == bl[i]);
        }
        assert(nl_template ==> (0 + n == lines.len() || lines[0 + n].len() == 0)) by {
            if nl_template {
                assert(lines[n] == ts[0]);
            }
        }
        lemma_lint_ok_parts(template, nl_shebang, nl_template, comment, lines, 0);
    } else {
        lemma_find_newline(content);
        let i = find_newline(content);
        assert(content.take(2)[0] == content[0]);
        assert(content.take(2)[1] == content[1]);
        assert(content[0] == 35u8 && content[1] == 33u8);
        assert(content.len() >= 2);
        assert(i >= 2) by {
            if i < 2 {
                assert(content[i] == nl());
            }
        }
        let sheb = content.take(i);
        assert(no_nl(sheb)) by {
            assert forall|k: int| 0 <= k < sheb.len() implies sheb[k] != nl() by {
                assert(sheb[k] == content[k]);
            }
        }
        assert(starts_with(sheb, shebang_pat())) by {
            assert(sheb.take(2) =~= content.take(2));
        }
        if i < content.len() {
            if nl_shebang {
                if starts_with(content.skip(i + 1), seq![nl()]) {
                    assert(p.loc == i + 2 && p.pre == 0);
                    assert(content.skip(i + 1).take(1)[0] == content.skip(i + 1)[0]);
                    assert(content[i + 1] == nl());
                    assert(out =~= sheb + seq![nl()] + (Seq::<u8>::empty() + seq![nl()] + (block
                        + tail))) by {
                        assert(content.take(i + 2) =~= sheb + seq![nl()] + seq![nl()]);
                    }
                    lemma_split_line(sheb, Seq::<u8>::empty() + seq![nl()] + (block + tail));
                    lemma_split_line(Seq::<u8>::empty(), block + tail);
                    let lines = split_lines(out);
                    assert(lines == seq![sheb] + (seq![Seq::<u8>::empty()] + (bl + ts)));
                    assert(lines[0] == sheb && lines[1].len() == 0);
                    assert(crate::lint::shebang_consumed(nl_shebang, lines) == 2);
                    assert forall|k: int| 0 <= k < n implies line_matches(
                        tokenize(crate::lint::prefixed(comment, #[trigger] tl[k])),
                        lines[2 + k],
                    ) by {
                        assert(lines[2 + k] == bl[k]);
                    }
                    assert(nl_template ==> (2 + n == lines.len() || lines[2 + n].len() == 0)) by {
                        if nl_template {
                            assert(lines[2 + n] == ts[0]);
                        }
                    }
                    lemma_lint_ok_parts(template, nl_shebang, nl_template, comment, lines, 2);
                } else {
                    assert(p.loc == i + 1 && p.pre == 1);
                    assert(out =~= sheb + seq![nl()] + (Seq::<u8>::empty() + seq![nl()] + (block
                        + tail))) by {
                        assert(content.take(i + 1) =~= sheb + seq![nl()]);
                    }
                    lemma_split_line(sheb, Seq::<u8>::empty() + seq![nl()] + (block + tail));
                    lemma_split_line(Seq::<u8>::empty(), block + tail);
                    let lines = split_lines(out);
                    assert(lines == seq![sheb] + (seq![Seq::<u8>::empty()] + (bl + ts)));
                    assert(lines[0] == sheb && lines[1].len() == 0);
                    assert(crate::lint::shebang_consumed(nl_shebang, lines) == 2);
                    assert forall|k: int| 0 <= k < n implies line_matches(
                        tokenize(crate::lint::prefixed(comment, #[trigger] tl[k])),
                        lines[2 + k],
                    ) by {
                        assert(lines[2 + k] == bl[k]);
                    }
                    assert(nl_template ==> (2 + n == lines.len() || lines[2 + n].len() == 0)) by {
                        if nl_template {
                            assert(lines[2 + n] == ts[0]);
                        }
                    }
                    lemma_lint_ok_parts(template, nl_shebang, nl_template, comment, lines, 2);
                }
            } else {
                assert(p.loc == i + 1 && p.pre == 0);
                assert(out =~= sheb + seq![nl()] + (block + tail)) by {
                    assert(content.take(i + 1) =~= sheb + seq![nl()]);
                }
                lemma_split_line(sheb, block + tail);
                let lines = split_lines(out);
                assert(lines == seq![sheb] + (bl + ts));
                assert(lines[0] == sheb);
                assert(crate::lint::shebang_consumed(nl_shebang, lines) == 1);
                assert forall|k: int| 0 <= k < n implies line_matches(
                    tokenize(crate::lint::prefixed(comment, #[trigger] tl[k])),
                    lines[1 + k],
                ) by {
                    assert(lines[1 + k] == bl[k]);
                }
                assert(nl_template ==> (1 + n == lines.len() || lines[1 + n].len() == 0)) by {
                    if nl_template {
                        assert(lines[1 + n] == ts[0]);
                    }
                }
                lemma_lint_ok_parts(template, nl_shebang, nl_template, comment, lines, 1);
            }
        } else {
            assert(p.loc == content.len() as int);
            assert(sheb =~= content);
            assert(cpart =~= Seq::<u8>::empty());
            if nl_shebang {
                assert(p.pre == 2);
                assert(out =~= sheb + seq![nl()] + (Seq::<u8>::empty() + seq![nl()] + (block
                    + tail)));
                lemma_split_line(sheb, Seq::<u8>::empty() + seq![nl()] + (block + tail));
                lemma_split_line(Seq::<u8>::empty(), block + tail);
                let lines = split_lines(out);
                assert(lines == seq![sheb] + (seq![Seq::<u8>::empty()] + (bl + ts)));
                assert(lines[0] == sheb && lines[1].len() == 0);
                assert(crate::lint::shebang_consumed(nl_shebang, lines) == 2);
                assert forall|k: int| 0 <= k < n implies line_matches(
                    tokenize(crate::lint::prefixed(comment, #[trigger] tl[k])),
                    lines[2 + k],
                ) by {
                    assert(lines[2 + k] == bl[k]);
                }
                assert(nl_template ==> (2 + n == lines.len() || lines[2 + n].len() == 0)) by {
                    if nl_template {
                        assert(lines[2 + n] == ts[0]);
                    }
                }
                lemma_lint_ok_parts(template, nl_shebang, nl_template, comment, lines, 2);
            } else {
                assert(p.pre == 1);
                assert(out =~= sheb + seq![nl()] + (block + tail));
                lemma_split_line(sheb, block + tail);
                let lines = split_lines(out);
                assert(lines == seq![sheb] + (bl + ts));
                assert(lines[0] == sheb);
                assert(crate::lint::shebang_consumed(nl_shebang, lines) == 1);
                assert forall|k: int| 0 <= k < n implies line_matches(
                    tokenize(crate::lint::prefixed(comment, #[trigger] tl[k])),
                    lines[1 + k],
                ) by {
                    assert(lines[1 + k] == bl[k]);
                }
                assert(nl_template ==> (1 + n == lines.len() || lines[1 + n].len() == 0)) by {
                    if nl_template {
                        assert(lines[1 + n] == ts[0]);
                    }
                }
                lemma_lint_ok_parts(template, nl_shebang, nl_template, comment, lines, 1);
            }
        }
    }
}

/// Round trip: whenever the writer succeeds on a file, its output passes
/// the matcher — the inserted header always validates against the template
/// that generated it. Holds for any author text the `{author}` pattern
/// accepts and any four-digit year, when the template is nonempty, every
/// `{` in it opens a placeholder, and the resolved comment prefix is
/// newline-free, brace-free and does not begin like a shebang.
pub proof fn lemma_round_trip(
    c: crate::config::Config,
    ext: Seq<u8>,
    content: Seq<u8>,
    a: Seq<u8>,
    y: Seq<u8>,
)
    requires
        crate::writer::format_spec(c, ext, content, a, y) is Ok,
        is_author_seg(a),
        is_year_seg(y),
        c.template@.len() > 0,
        no_nl(crate::config::comment_for(c, ext).unwrap()),
        forall|q: int|
            0 <= q < crate::config::comment_for(c, ext).unwrap().len()
                ==> crate::config::comment_for(c, ext).unwrap()[q] != 123u8,
        !starts_with(crate::config::comment_for(c, ext).unwrap(), shebang_pat()),
        forall|i: int|
            0 <= i < split_lines(c.template@).len() ==> placeholders_only(
                #[trigger] split_lines(c.template@)[i],
            ),
    ensures
        crate::lint::lint_full_spec(
            c,
            ext,
            crate::writer::format_spec(c, ext, content, a, y)->Ok_0,
        ) is Ok,
{
    let cm = crate::config::comment_for(c, ext).unwrap();
    let lint0 = crate::lint::lint_spec(
        c.template@,
        c.newline_after_shebang,
        c.newline_after_template,
        cm,
        split_lines(content),
    );
    if lint0 is Ok {
    } else {
        let p = crate::writer::plan_spec(
            c.newline_after_shebang,
            c.newline_after_template,
            cm,
            content,
        )->Ok_0;
        lemma_round_trip_core(
            c.template@,
            c.newline_after_shebang,
            c.newline_after_template,
            cm,
            content,
            a,
            y,
            p,
        );
    }
}

/// Idempotence: running the writer on content the writer already produced
/// is a no-op — the matcher accepts that content, so the writer returns it
/// unchanged, whatever author text and year the second run would use.
pub proof fn lemma_idempotent(
    c: crate::config::Config,
    ext: Seq<u8>,
    content: Seq<u8>,
    a: Seq<u8>,
    y: Seq<u8>,
    a2: Seq<u8>,
    y2: Seq<u8>,
)
    requires
        crate::writer::format_spec(c, ext, content, a, y) is Ok,
        is_author_seg(a),
        is_year_seg(y),
        c.template@.len() > 0,
        no_nl(crate::config::comment_for(c, ext).unwrap()),
        forall|q: int|
            0 <= q < crate::config::comment_for(c, ext).unwrap().len()
                ==> crate::config::comment_for(c, ext).unwrap()[q] != 123u8,
        !starts_with(crate::config::comment_for(c, ext).unwrap(), shebang_pat()),
        forall|i: int|
            0 <= i < split_lines(c.template@).len() ==> placeholders_only(
                #[trigger] split_lines(c.template@)[i],
            ),
    ensures
        crate::writer::format_spec(
            c,
            ext,
            crate::writer::format_spec(c, ext, content, a, y)->Ok_0,
            a2,
            y2,
        ) == Ok::<Seq<u8>, HeaderErr>(crate::writer::format_spec(c, ext, content, a, y)->Ok_0),
{
    lemma_round_trip(c, ext, content, a, y);
}

/// The `{year}` placeholder consumes exactly four decimal digits: a token
/// match for it demands a four-digit run at the front, and the accepted
/// segment itself is never shorter or longer than four digits.
pub proof fn lemma_year_placeholder(s: Seq<u8>)
    ensures
        matches_from(seq![Token::Year], s) <==> (s.len() >= 4 && is_year_seg(s.take(4))),
        is_year_seg(s) ==> s.len() == 4,
{
    assert(seq![Token::Year][0] == Token::Year);
    assert(seq![Token::Year].skip(1) =~= Seq::<Token>::empty());
    if s.len() >= 4 && is_year_seg(s.take(4)) {
        assert(matches_from(seq![Token::Year].skip(1), s.skip(4)));
        assert(matches_from(seq![Token::Year], s));
    }
}

/// The `{author}` placeholder accepts exactly the nonempty texts of word
/// bytes, spaces and tabs that begin and end with a word byte — in
/// particular nothing empty and nothing holding a newline — and a token
/// match for it demands such a segment at the front.
pub proof fn lemma_author_placeholder(s: Seq<u8>)
    ensures
        matches_from(seq![Token::Author], s) <==> (exists|k: int|
            1 <= k <= s.len() && is_author_seg(s.take(k))),
        is_author_seg(s) ==> s.len() >= 1 && no_nl(s),
        is_author_seg(s) ==> matches_from(seq![Token::Author], s),
{
    assert(seq![Token::Author][0] == Token::Author);
    assert(seq![Token::Author].skip(1) =~= Seq::<Token>::empty());
    if exists|k: int| 1 <= k <= s.len() && is_author_seg(s.take(k)) {
        let k = choose|k: int| 1 <= k <= s.len() && is_author_seg(s.take(k));
        assert(is_author_seg(s.take(k)) && matches_from(
            seq![Token::Author].skip(1),
            s.skip(k),
        ));
        assert(matches_from(seq![Token::Author], s));
    }
    if is_author_seg(s) {
        assert forall|i: int| 0 <= i < s.len() implies s[i] != nl() by {
            assert(is_wst(s[i]));
        }
        assert(s.take(s.len() as int) =~= s);
        assert(is_author_seg(s.take(s.len() as int)) && matches_from(
            seq![Token::Author].skip(1),
            s.skip(s.len() as int),
        ));
        assert(matches_from(seq![Token::Author], s));
    }
}

/// A file that is only a shebang line, with no newline at all, owes two
/// blank lines before the header when the blank-line-after-shebang
/// convention is on: the header goes at the very end of the content.
pub proof fn lemma_shebang_only_placement(content: Seq<u8>)
    requires
        starts_with(content, shebang_pat()),
        no_nl(content),
    ensures
        crate::writer::shebang_placement(true, content) == (content.len() as int, 2int),
{
    lemma_find_newline_unique(content, content.len() as int);
}

/// The writer refuses to insert whenever the content at the computed
/// insertion offset already begins with the comment prefix, however the
/// rest of that text diverges from the template.
pub proof fn lemma_existing_header_refused(
    nl_shebang: bool,
    nl_template: bool,
    comment: Seq<u8>,
    content: Seq<u8>,
)
    requires
        starts_with(
            content.skip(crate::writer::shebang_placement(nl_shebang, content).0),
            comment,
        ),
    ensures
        crate::writer::plan_spec(nl_shebang, nl_template, comment, content) == Err::<
            crate::writer::PlanSpec,
            HeaderErr,
        >(HeaderErr::LooksLikeExistingHeader),
{
}

} // verus!
