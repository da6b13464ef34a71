//! The header-line pattern language. A template line, prefixed with the
//! comment token, is read as a sequence of tokens: literal bytes, and the two
//! placeholders `{author}` and `{year}`. A file line conforms when the token
//! sequence matches somewhere inside it — the search is unanchored: a match
//! may begin at any position and bytes after it are ignored. `{year}`
//! consumes exactly four decimal digits, and `{author}` consumes one or more
//! words made of word bytes, separated by runs of spaces and tabs.

use vstd::prelude::*;

use crate::text::starts_with;
use crate::text::starts_with_at;

verus! {

/// A piece of a header-line pattern.
#[derive(Clone, Copy)]
pub enum Token {
    /// A byte that must appear literally.
    Lit(u8),
    /// The `{author}` placeholder.
    Author,
    /// The `{year}` placeholder.
    Year,
}

/// The bytes of `"{author}"`.
pub open spec fn author_pat() -> Seq<u8> {
    seq![123u8, 97u8, 117u8, 116u8, 104u8, 111u8, 114u8, 125u8]
}

/// The bytes of `"{year}"`.
pub open spec fn year_pat() -> Seq<u8> {
    seq![123u8, 121u8, 101u8, 97u8, 114u8, 125u8]
}

/// The bytes of `"#!"`.
pub open spec fn shebang_pat() -> Seq<u8> {
    seq![35u8, 33u8]
}

/// A word byte: an ASCII letter, digit, or underscore.
pub open spec fn is_word(b: u8) -> bool {
    (48 <= b <= 57) || (65 <= b <= 90) || (97 <= b <= 122) || b == 95
}

/// An ASCII decimal digit.
pub open spec fn is_digit(b: u8) -> bool {
    48 <= b <= 57
}

/// A space or a tab.
pub open spec fn is_space_tab(b: u8) -> bool {
    b == 32 || b == 9
}

/// A byte the `{author}` placeholder may contain.
pub open spec fn is_wst(b: u8) -> bool {
    is_word(b) || is_space_tab(b)
}

/// The text the `{author}` placeholder accepts: nonempty, made of word
/// bytes, spaces and tabs, beginning and ending with a word byte.
pub open spec fn is_author_seg(s: Seq<u8>) -> bool {
    &&& s.len() >= 1
    &&& is_word(s[0])
    &&& is_word(s[s.len() - 1])
    &&& forall|i: int| 0 <= i < s.len() ==> is_wst(s[i])
}

/// The text the `{year}` placeholder accepts: exactly four decimal digits.
pub open spec fn is_year_seg(s: Seq<u8>) -> bool {
    s.len() == 4 && forall|i: int| 0 <= i < s.len() ==> is_digit(s[i])
}

/// Read a prefixed template line as a token sequence. At each position the
/// two placeholder spellings are recognised first; any other byte is literal.
pub open spec fn tokenize(s: Seq<u8>) -> Seq<Token>
    decreases s.len(),
{
    if s.len() == 0 {
        Seq::empty()
    } else if starts_with(s, author_pat()) {
        seq![Token::Author] + tokenize(s.skip(author_pat().len() as int))
    } else if starts_with(s, year_pat()) {
        seq![Token::Year] + tokenize(s.skip(year_pat().len() as int))
    } else {
        seq![Token::Lit(s[0])] + tokenize(s.skip(1))
    }
}

/// The token sequence matches some prefix of `s`: literals byte for byte,
/// `{year}` a four-digit run, `{author}` any author text, with full
/// backtracking over how much each `{author}` consumes. Bytes of `s` after
/// the last token are ignored.
pub open spec fn matches_from(ts: Seq<Token>, s: Seq<u8>) -> bool
    decreases ts.len(),
{
    if ts.len() == 0 {
        true
    } else {
        match ts[0] {
            Token::Lit(c) => s.len() >= 1 && s[0] == c && matches_from(ts.skip(1), s.skip(1)),
            Token::Year => s.len() >= 4 && is_year_seg(s.take(4)) && matches_from(
                ts.skip(1),
                s.skip(4),
            ),
            Token::Author => exists|k: int|
                1 <= k <= s.len() && is_author_seg(s.take(k)) && matches_from(
                    ts.skip(1),
                    s.skip(k),
                ),
        }
    }
}

/// The token sequence matches somewhere inside the line: at any start
/// position, ignoring whatever follows the match.
pub open spec fn line_matches(ts: Seq<Token>, s: Seq<u8>) -> bool {
    exists|i: int| 0 <= i <= s.len() && matches_from(ts, s.skip(i))
}

/// The bytes of `"{author}"`, as a vector.
pub fn author_pat_vec() -> (v: Vec<u8>)
    ensures
        v@ == author_pat(),
{
    let mut v: Vec<u8> = Vec::new();
    v.push(123u8);
    v.push(97u8);
    v.push(117u8);
    v.push(116u8);
    v.push(104u8);
    v.push(111u8);
    v.push(114u8);
    v.push(125u8);
    proof {
        assert(v@ =~= author_pat());
    }
    v
}

/// The bytes of `"{year}"`, as a vector.
pub fn year_pat_vec() -> (v: Vec<u8>)
    ensures
        v@ == year_pat(),
{
    let mut v: Vec<u8> = Vec::new();
    v.push(123u8);
    v.push(121u8);
    v.push(101u8);
    v.push(97u8);
    v.push(114u8);
    v.push(125u8);
    proof {
        assert(v@ =~= year_pat());
    }
    v
}

/// The bytes of `"#!"`, as a vector.
pub fn shebang_pat_vec() -> (v: Vec<u8>)
    ensures
        v@ == shebang_pat(),
{
    let mut v: Vec<u8> = Vec::new();
    v.push(35u8);
    v.push(33u8);
    proof {
        assert(v@ =~= shebang_pat());
    }
    v
}

/// Decide `is_word` on a byte.
pub fn is_word_exec(b: u8) -> (r: bool)
    ensures
        r == is_word(b),
{
    (48 <= b && b <= 57) || (65 <= b && b <= 90) || (97 <= b && b <= 122) || b == 95
}

/// Decide `is_digit` on a byte.
pub fn is_digit_exec(b: u8) -> (r: bool)
    ensures
        r == is_digit(b),
{
    48 <= b && b <= 57
}

/// Decide `is_wst` on a byte.
pub fn is_wst_exec(b: u8) -> (r: bool)
    ensures
        r == is_wst(b),
{
    is_word_exec(b) || b == 32 || b == 9
}

/// Read the prefixed template line `s` as its token sequence.
pub fn tokenize_exec(s: &Vec<u8>) -> (r: Vec<Token>)
    ensures
        r@ == tokenize(s@),
{
    let apat = author_pat_vec();
    let ypat = year_pat_vec();
    let mut r: Vec<Token> = Vec::new();
    let mut pos: usize = 0;
    proof {
        assert(s@.skip(0) =~= s@);
        assert(r@ + tokenize(s@) =~= tokenize(s@));
    }
    while pos < s.len()
        invariant
            pos <= s.len(),
            apat@ == author_pat(),
            ypat@ == year_pat(),
            tokenize(s@) == r@ + tokenize(s@.skip(pos as int)),
        decreases s.len() - pos,
    {
        let ghost t = s@.skip(pos as int);
        let ghost old_r = r@;
        if starts_with_at(s, pos, &apat) {
            r.push(Token::Author);
            proof {
                assert(t.skip(author_pat().len() as int) =~= s@.skip(pos + 8));
                assert(old_r + (seq![Token::Author] + tokenize(s@.skip(pos + 8))) =~= r@
                    + tokenize(s@.skip(pos + 8)));
            }
            pos = pos + 8;
        } else if starts_with_at(s, pos, &ypat) {
            r.push(Token::Year);
            proof {
                assert(t.skip(year_pat().len() as int) =~= s@.skip(pos + 6));
                assert(old_r + (seq![Token::Year] + tokenize(s@.skip(pos + 6))) =~= r@ + tokenize(
                    s@.skip(pos + 6),
                ));
            }
            pos = pos + 6;
        } else {
            r.push(Token::Lit(s[pos]));
            proof {
                assert(t.skip(1) =~= s@.skip(pos + 1));
                assert(t[0] == s@[pos as int]);
                assert(old_r + (seq![Token::Lit(t[0])] + tokenize(s@.skip(pos + 1))) =~= r@
                    + tokenize(s@.skip(pos + 1)));
            }
            pos = pos + 1;
        }
    }
    proof {
        assert(r@ + tokenize(s@.skip(pos as int)) =~= r@);
    }
    r
}

/// Match the tokens `ts[ti..]` against a prefix of `s[si..]`, with
/// backtracking over the span of each `{author}`.
pub fn match_from_at(ts: &Vec<Token>, ti: usize, s: &Vec<u8>, si: usize) -> (r: bool)
    requires
        ti <= ts.len(),
        si <= s.len(),
    ensures
        r == matches_from(ts@.skip(ti as int), s@.skip(si as int)),
    decreases ts@.len() - ti,
{
    let ghost tst = ts@.skip(ti as int);
    let ghost st = s@.skip(si as int);
    if ti == ts.len() {
        proof {
            assert(tst =~= Seq::<Token>::empty());
        }
        return true;
    }
    proof {
        assert(tst[0] == ts@[ti as int]);
        assert(tst.skip(1) =~= ts@.skip(ti + 1));
    }
    match ts[ti] {
        Token::Lit(c) => {
            if si < s.len() && s[si] == c {
                proof {
                    assert(st[0] == s@[si as int]);
                    assert(st.skip(1) =~= s@.skip(si + 1));
                }
                match_from_at(ts, ti + 1, s, si + 1)
            } else {
                proof {
                    if si < s.len() {
                        assert(st[0] == s@[si as int]);
                    }
                }
                false
            }
        },
        Token::Year => {
            if s.len() - si >= 4 && is_digit_exec(s[si]) && is_digit_exec(s[si + 1])
                && is_digit_exec(s[si + 2]) && is_digit_exec(s[si + 3]) {
                proof {
                    assert forall|j: int| 0 <= j < 4 implies is_digit(st.take(4)[j]) by {
                        assert(st.take(4)[j] == s@[si + j]);
                    }
                    assert(is_year_seg(st.take(4)));
                    assert(st.skip(4) =~= s@.skip(si + 4));
                }
                match_from_at(ts, ti + 1, s, si + 4)
            } else {
                proof {
                    if s@.len() - si >= 4 {
                        assert(st.take(4)[0] == s@[si as int]);
                        assert(st.take(4)[1] == s@[si + 1]);
                        assert(st.take(4)[2] == s@[si + 2]);
                        assert(st.take(4)[3] == s@[si + 3]);
                        assert(!is_year_seg(st.take(4)));
                    }
                }
                false
            }
        },
        Token::Author => {
            if si >= s.len() || !is_word_exec(s[si]) {
                proof {
                    assert forall|k: int|
                        1 <= k <= st.len() implies !is_author_seg(st.take(k)) by {
                        assert(st.take(k)[0] == s@[si as int]);
                    }
                }
                return false;
            }
            let mut run: usize = 0;
            while si + run < s.len() && is_wst_exec(s[si + run])
                invariant
                    si < s.len(),
                    run <= s.len() - si,
                    forall|j: int| 0 <= j < run ==> #[trigger] is_wst(s@[si + j]),
                decreases s.len() - si - run,
            {
                run = run + 1;
            }
            let mut tried: usize = 0;
            while tried < run
                invariant
                    ti < ts.len(),
                    si < s.len(),
                    is_word(s@[si as int]),
                    run <= s.len() - si,
                    forall|j: int| 0 <= j < run ==> #[trigger] is_wst(s@[si + j]),
                    run < s.len() - si ==> !is_wst(s@[si + run]),
                    tried <= run,
                    tst == ts@.skip(ti as int),
                    st == s@.skip(si as int),
                    tst.len() >= 1,
                    tst[0] is Author,
                    tst.skip(1) == ts@.skip(ti + 1),
                    forall|m: int|
                        1 <= m <= tried ==> !(is_author_seg(st.take(m)) && matches_from(
                            tst.skip(1),
                            st.skip(m),
                        )),
                decreases run - tried,
            {
                let k = tried + 1;
                proof {
                    assert(st.skip(k as int) =~= s@.skip(si + k));
                    assert(st.take(k as int)[0] == s@[si as int]);
                    assert(st.take(k as int)[k - 1] == s@[si + k - 1]);
                }
                if is_word_exec(s[si + k - 1]) {
                    if match_from_at(ts, ti + 1, s, si + k) {
                        proof {
                            assert forall|j: int|
                                0 <= j < k implies is_wst(st.take(k as int)[j]) by {
                                assert(st.take(k as int)[j] == s@[si + j]);
                            }
                            assert(is_author_seg(st.take(k as int)));
                            assert(matches_from(tst.skip(1), st.skip(k as int)));
                            assert(1 <= k as int <= st.len());
                            assert(matches_from(tst, st));
                        }
                        return true;
                    }
                } else {
                    proof {
                        assert(!is_author_seg(st.take(k as int)));
                    }
                }
                tried = k;
            }
            proof {
                assert forall|m: int|
                    1 <= m <= st.len() implies !(is_author_seg(st.take(m)) && matches_from(
                    tst.skip(1),
                    st.skip(m),
                )) by {
                    if m > run {
                        assert(st.take(m)[run as int] == s@[si + run]);
                        assert(!is_wst(st.take(m)[run as int]));
                    }
                }
                assert(!matches_from(tst, st));
            }
            false
        },
    }
}

/// Does the token sequence match anywhere inside the line `s`?
pub fn line_matches_exec(ts: &Vec<Token>, s: &Vec<u8>) -> (r: bool)
    ensures
        r == line_matches(ts@, s@),
{
    let mut i: usize = 0;
    proof {
        assert(ts@.skip(0) =~= ts@);
    }
    while i < s.len()
        invariant
            i <= s.len(),
            ts@.skip(0) == ts@,
            forall|j: int| 0 <= j < i ==> !matches_from(ts@, s@.skip(j)),
        decreases s.len() - i,
    {
        if match_from_at(ts, 0, s, i) {
            proof {
                assert(matches_from(ts@, s@.skip(i as int)));
            }
            return true;
        }
        i += 1;
    }
    match_from_at(ts, 0, s, s.len())
}

} // verus!
