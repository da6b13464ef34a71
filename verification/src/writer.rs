//! The header writer. When a file fails the check, it computes where the
//! header belongs — after a shebang line and its blank-line convention —
//! how many blank lines must surround it, and the full new content with the
//! header spliced in. Everything is computed from a read-only snapshot of
//! the content; the caller decides what to do with the result.

use vstd::prelude::*;

use crate::config::comment_for;
use crate::config::get_comment;
use crate::config::Config;
use crate::errors::err_view;
use crate::errors::HeaderErr;
use crate::errors::HeaderError;
use crate::lint::lint;
use crate::lint::lint_spec;
use crate::lint::prefixed;
use crate::lint::prefixed_exec;
use crate::pattern::author_pat;
use crate::pattern::author_pat_vec;
use crate::pattern::shebang_pat;
use crate::pattern::shebang_pat_vec;
use crate::pattern::year_pat;
use crate::pattern::year_pat_vec;
use crate::text::append_bytes;
use crate::text::find_newline;
use crate::text::find_newline_from;
use crate::text::nl;
use crate::text::repeat_nl;
use crate::text::replace_all;
use crate::text::replace_all_exec;
use crate::text::split_lines;
use crate::text::split_lines_exec;
use crate::text::starts_with;
use crate::text::starts_with_at;
use crate::text::subvec;
use crate::text::views_of;

verus! {

/// Where the header goes and how many blank lines must stand before and
/// after it.
pub struct Plan {
    /// Byte offset in the original content where the insertion happens.
    pub loc: usize,
    /// Blank lines inserted before the header.
    pub pre: usize,
    /// Blank lines inserted after the header.
    pub post: usize,
}

/// The same placement, over unbounded integers, for contracts.
pub struct PlanSpec {
    /// See `Plan::loc`.
    pub loc: int,
    /// See `Plan::pre`.
    pub pre: int,
    /// See `Plan::post`.
    pub post: int,
}

/// The placement a `Plan` value stands for.
pub open spec fn plan_view(p: Plan) -> PlanSpec {
    PlanSpec { loc: p.loc as int, pre: p.pre as int, post: p.post as int }
}

/// The insertion offset and the blank lines owed before the header, as the
/// shebang convention demands: no shebang inserts at the very start; a
/// shebang line ending in a newline moves the offset just past that
/// newline, and when the convention asks for a blank line, past an existing
/// one, or else records that one must be inserted; a shebang with no
/// newline at all inserts at the end, owing one blank line, or two when the
/// convention asks for one.
pub open spec fn shebang_placement(nl_shebang: bool, content: Seq<u8>) -> (int, int) {
    if !starts_with(content, shebang_pat()) {
        (0, 0)
    } else {
        let i = find_newline(content);
        if i < content.len() {
            if nl_shebang {
                if starts_with(content.skip(i + 1), seq![nl()]) {
                    (i + 2, 0)
                } else {
                    (i + 1, 1)
                }
            } else {
                (i + 1, 0)
            }
        } else {
            (content.len() as int, if nl_shebang { 2int } else { 1int })
        }
    }
}

/// The writer's placement decision: the shebang placement, refused with
/// `LooksLikeExistingHeader` when the content at the offset already begins
/// with the comment prefix (a deliberate heuristic: only the prefix is
/// inspected, not the whole template), and otherwise one blank line owed
/// after the header when the convention asks for one and none is there.
pub open spec fn plan_spec(
    nl_shebang: bool,
    nl_template: bool,
    comment: Seq<u8>,
    content: Seq<u8>,
) -> Result<PlanSpec, HeaderErr> {
    let placement = shebang_placement(nl_shebang, content);
    if starts_with(content.skip(placement.0), comment) {
        Err(HeaderErr::LooksLikeExistingHeader)
    } else {
        let post = if nl_template && !starts_with(content.skip(placement.0), seq![nl()]) {
            1int
        } else {
            0int
        };
        Ok(PlanSpec { loc: placement.0, pre: placement.1, post: post })
    }
}

/// The template with `{author}` replaced by `author`, then `{year}` by
/// `year`, in that order, as the header instance is built.
pub open spec fn subst(s: Seq<u8>, author: Seq<u8>, year: Seq<u8>) -> Seq<u8> {
    replace_all(replace_all(s, author_pat(), author), year_pat(), year)
}

/// The header lines as written: each line prefixed with the comment and a
/// space, each ending in a newline.
pub open spec fn header_block(lines: Seq<Seq<u8>>, comment: Seq<u8>) -> Seq<u8>
    decreases lines.len(),
{
    if lines.len() == 0 {
        Seq::empty()
    } else {
        prefixed(comment, lines[0]) + seq![nl()] + header_block(lines.skip(1), comment)
    }
}

/// Everything the writer inserts: the owed blank lines, the header built
/// from the substituted template, and the owed trailing blank line.
pub open spec fn insertion_spec(
    template: Seq<u8>,
    comment: Seq<u8>,
    author: Seq<u8>,
    year: Seq<u8>,
    pre: int,
    post: int,
) -> Seq<u8> {
    repeat_nl(pre) + header_block(split_lines(subst(template, author, year)), comment)
        + repeat_nl(post)
}

/// The new file content: the insertion spliced into the original at `loc`.
pub open spec fn spliced(content: Seq<u8>, loc: int, ins: Seq<u8>) -> Seq<u8> {
    content.take(loc) + ins + content.skip(loc)
}

/// What the writer produces for a file: the content unchanged when the
/// matcher already accepts it; otherwise the placement's error, or the new
/// content with the header spliced in.
pub open spec fn format_spec(
    c: Config,
    ext: Seq<u8>,
    content: Seq<u8>,
    author: Seq<u8>,
    year: Seq<u8>,
) -> Result<Seq<u8>, HeaderErr> {
    match comment_for(c, ext) {
        None => Err(HeaderErr::UnsupportedExtension),
        Some(cm) => if lint_spec(
            c.template@,
            c.newline_after_shebang,
            c.newline_after_template,
            cm,
            split_lines(content),
        ) is Ok {
            Ok(content)
        } else {
            match plan_spec(c.newline_after_shebang, c.newline_after_template, cm, content) {
                Err(e) => Err(e),
                Ok(p) => Ok(
                    spliced(
                        content,
                        p.loc,
                        insertion_spec(c.template@, cm, author, year, p.pre, p.post),
                    ),
                ),
            }
        },
    }
}

/// Compute the writer's placement for a resolved comment prefix. Decides
/// `plan_spec`; an `Ok` placement always lies within the content and owes
/// at most two blank lines before and one after the header.
pub fn plan_with_comment(
    nl_shebang: bool,
    nl_template: bool,
    comment: &Vec<u8>,
    content: &Vec<u8>,
) -> (r: Result<Plan, HeaderError>)
    ensures
        match plan_spec(nl_shebang, nl_template, comment@, content@) {
            Ok(p) => r is Ok && plan_view(r->Ok_0) == p && p.loc <= content@.len() && p.pre <= 2
                && p.post <= 1,
            Err(e) => r is Err && err_view(r->Err_0) == e,
        },
{
    let shebang = shebang_pat_vec();
    let mut loc: usize = 0;
    let mut pre: usize = 0;
    proof {
        assert(content@.skip(0) =~= content@);
    }
    if starts_with_at(content, 0, &shebang) {
        let i = find_newline_from(content, 0);
        if i < content.len() {
            if nl_shebang {
                if i + 1 < content.len() && content[i + 1] == 10u8 {
                    proof {
                        assert(content@.skip(i + 1).take(1) =~= seq![nl()]);
                    }
                    loc = i + 2;
                } else {
                    proof {
                        let t = content@.skip(i + 1);
                        if t.len() >= 1 {
                            assert(t.take(1)[0] == content@[i + 1]);
                        }
                        assert(!starts_with(t, seq![nl()]));
                    }
                    loc = i + 1;
                    pre = 1;
                }
            } else {
                loc = i + 1;
            }
        } else {
            loc = content.len();
            pre = if nl_shebang {
                2
            } else {
                1
            };
        }
    }
    proof {
        assert(shebang_placement(nl_shebang, content@) == (loc as int, pre as int));
    }
    if starts_with_at(content, loc, comment) {
        return Err(HeaderError::LooksLikeExistingHeader);
    }
    let mut post: usize = 0;
    if nl_template {
        if loc < content.len() && content[loc] == 10u8 {
            proof {
                assert(content@.skip(loc as int).take(1) =~= seq![nl()]);
            }
        } else {
            proof {
                let t = content@.skip(loc as int);
                if t.len() >= 1 {
                    assert(t.take(1)[0] == content@[loc as int]);
                }
                assert(!starts_with(t, seq![nl()]));
            }
            post = 1;
        }
    }
    Ok(Plan { loc, pre, post })
}

/// The writer's placement for a file: resolve the comment prefix for the
/// extension, then decide where the header goes.
pub fn plan(config: &Config, ext: &Vec<u8>, content: &Vec<u8>) -> (r: Result<Plan, HeaderError>)
    ensures
        match comment_for(*config, ext@) {
            None => r is Err && err_view(r->Err_0) == HeaderErr::UnsupportedExtension,
            Some(cm) => match plan_spec(
                config.newline_after_shebang,
                config.newline_after_template,
                cm,
                content@,
            ) {
                Ok(p) => r is Ok && plan_view(r->Ok_0) == p && p.loc <= content@.len() && p.pre
                    <= 2 && p.post <= 1,
                Err(e) => r is Err && err_view(r->Err_0) == e,
            },
        },
{
    let comment = match get_comment(config, ext) {
        Ok(cm) => cm,
        Err(e) => {
            return Err(e);
        },
    };
    plan_with_comment(
        config.newline_after_shebang,
        config.newline_after_template,
        &comment,
        content,
    )
}

/// Append `n` newline bytes (at most two).
fn push_newlines(out: &mut Vec<u8>, n: usize)
    requires
        n <= 2,
    ensures
        final(out)@ == old(out)@ + repeat_nl(n as int),
{
    proof {
        assert(repeat_nl(0) =~= Seq::<u8>::empty());
        assert(repeat_nl(1) =~= seq![nl()]);
        assert(repeat_nl(2) =~= seq![nl(), nl()]);
    }
    let mut i: usize = 0;
    while i < n
        invariant
            i <= n <= 2,
            out@ == old(out)@ + repeat_nl(i as int),
            repeat_nl(0) == Seq::<u8>::empty(),
            repeat_nl(1) == seq![nl()],
            repeat_nl(2) == seq![nl(), nl()],
        decreases n - i,
    {
        out.push(10u8);
        proof {
            assert(out@ =~= old(out)@ + repeat_nl(i + 1));
        }
        i += 1;
    }
}

/// One header line of `header_block`, appended at the end.
proof fn lemma_header_block_snoc(lines: Seq<Seq<u8>>, comment: Seq<u8>, j: int)
    requires
        0 <= j < lines.len(),
    ensures
        header_block(lines.take(j + 1), comment) == header_block(lines.take(j), comment)
            + prefixed(comment, lines[j]) + seq![nl()],
    decreases j,
{
    if j == 0 {
        assert(lines.take(0) =~= Seq::<Seq<u8>>::empty());
        assert(lines.take(1) =~= seq![lines[0]]);
        assert(lines.take(1).skip(1) =~= Seq::<Seq<u8>>::empty());
        assert(header_block(lines.take(1), comment) =~= prefixed(comment, lines[0]) + seq![nl()]);
        assert(header_block(lines.take(0), comment) + prefixed(comment, lines[0]) + seq![nl()] =~=
            prefixed(comment, lines[0]) + seq![nl()]);
    } else {
        lemma_header_block_snoc(lines.skip(1), comment, j - 1);
        assert(lines.take(j + 1).skip(1) =~= lines.skip(1).take(j));
        assert(lines.take(j).skip(1) =~= lines.skip(1).take(j - 1));
        assert(lines.take(j + 1)[0] == lines[0]);
        assert(lines.take(j)[0] == lines[0]);
        assert(lines.skip(1)[j - 1] == lines[j]);
        assert(header_block(lines.take(j + 1), comment) == prefixed(comment, lines[0]) + seq![nl()]
            + header_block(lines.skip(1).take(j), comment));
        assert(header_block(lines.take(j), comment) == prefixed(comment, lines[0]) + seq![nl()]
            + header_block(lines.skip(1).take(j - 1), comment));
        assert(header_block(lines.take(j + 1), comment) =~= header_block(lines.take(j), comment)
            + prefixed(comment, lines[j]) + seq![nl()]);
    }
}

/// Build the full new content for a placement: the original up to the
/// offset, the owed blank lines, the substituted header lines, the owed
/// trailing blank line, and the rest of the original.
pub fn render(
    config: &Config,
    comment: &Vec<u8>,
    content: &Vec<u8>,
    placement: &Plan,
    author: &Vec<u8>,
    year: &Vec<u8>,
) -> (r: Vec<u8>)
    requires
        placement.loc <= content.len(),
        placement.pre <= 2,
        placement.post <= 1,
    ensures
        r@ == spliced(
            content@,
            placement.loc as int,
            insertion_spec(
                config.template@,
                comment@,
                author@,
                year@,
                placement.pre as int,
                placement.post as int,
            ),
        ),
{
    let apat = author_pat_vec();
    let ypat = year_pat_vec();
    let with_author = replace_all_exec(&config.template, &apat, author);
    let license = replace_all_exec(&with_author, &ypat, year);
    let hlines = split_lines_exec(&license);
    let ghost hlv = split_lines(subst(config.template@, author@, year@));
    let mut out = subvec(content, 0, placement.loc);
    proof {
        assert(out@ =~= content@.take(placement.loc as int));
    }
    push_newlines(&mut out, placement.pre);
    let ghost head = content@.take(placement.loc as int) + repeat_nl(placement.pre as int);
    proof {
        assert(out@ =~= head);
        assert(hlv.take(0) =~= Seq::<Seq<u8>>::empty());
        assert(out@ =~= head + header_block(hlv.take(0), comment@));
    }
    let mut j: usize = 0;
    while j < hlines.len()
        invariant
            j <= hlines.len(),
            hlv == views_of(hlines@),
            out@ == head + header_block(hlv.take(j as int), comment@),
        decreases hlines.len() - j,
    {
        proof {
            assert(hlv[j as int] == hlines@[j as int]@);
        }
        let line = prefixed_exec(comment, &hlines[j]);
        append_bytes(&mut out, &line);
        out.push(10u8);
        proof {
            lemma_header_block_snoc(hlv, comment@, j as int);
            assert(out@ =~= head + header_block(hlv.take(j + 1), comment@));
        }
        j += 1;
    }
    proof {
        assert(hlv.take(hlv.len() as int) =~= hlv);
    }
    push_newlines(&mut out, placement.post);
    let tail = subvec(content, placement.loc, content.len());
    proof {
        assert(tail@ =~= content@.skip(placement.loc as int));
    }
    append_bytes(&mut out, &tail);
    proof {
        assert(out@ =~= spliced(
            content@,
            placement.loc as int,
            insertion_spec(
                config.template@,
                comment@,
                author@,
                year@,
                placement.pre as int,
                placement.post as int,
            ),
        ));
    }
    out
}

/// The header writer. Decides `format_spec`: the content unchanged when
/// the matcher accepts it, the placement's refusal otherwise, or the new
/// content with the header, built from the given author and year, spliced
/// in at the computed offset.
pub fn format(
    config: &Config,
    ext: &Vec<u8>,
    content: &Vec<u8>,
    author: &Vec<u8>,
    year: &Vec<u8>,
) -> (r: Result<Vec<u8>, HeaderError>)
    ensures
        match format_spec(*config, ext@, content@, author@, year@) {
            Ok(s) => r is Ok && r->Ok_0@ == s,
            Err(e) => r is Err && err_view(r->Err_0) == e,
        },
{
    if lint(config, ext, content).is_ok() {
        let copy = subvec(content, 0, content.len());
        proof {
            assert(copy@ =~= content@);
        }
        return Ok(copy);
    }
    let comment = match get_comment(config, ext) {
        Ok(cm) => cm,
        Err(e) => {
            return Err(e);
        },
    };
    let placement = match plan_with_comment(
        config.newline_after_shebang,
        config.newline_after_template,
        &comment,
        content,
    ) {
        Ok(p) => p,
        Err(e) => {
            return Err(e);
        },
    };
    Ok(render(config, &comment, content, &placement, author, year))
}

} // verus!
