//! The header matcher. Given the configuration, a file's extension and its
//! content, it decides whether the file's leading lines carry the expected
//! header: an optional shebang line, an optional blank line after it, one
//! file line per template line matching the tokenized pattern, and an
//! optional blank line after the header. Pure validation, no side effects.

use vstd::prelude::*;

use crate::config::comment_for;
use crate::config::get_comment;
use crate::config::Config;
use crate::errors::err_view;
use crate::errors::HeaderErr;
use crate::errors::HeaderError;
use crate::pattern::line_matches;
use crate::pattern::line_matches_exec;
use crate::pattern::shebang_pat;
use crate::pattern::shebang_pat_vec;
use crate::pattern::tokenize;
use crate::pattern::tokenize_exec;
use crate::text::append_bytes;
use crate::text::split_lines;
use crate::text::split_lines_exec;
use crate::text::starts_with;
use crate::text::starts_with_at;
use crate::text::views_of;

verus! {

/// A template line as the file must carry it: the comment prefix, one
/// space, then the line.
pub open spec fn prefixed(comment: Seq<u8>, line: Seq<u8>) -> Seq<u8> {
    comment + seq![32u8] + line
}

/// How many leading file lines the shebang convention consumes: the shebang
/// line itself, and the blank line after it when the convention asks for
/// one. Meaningful only once the shebang checks have passed.
pub open spec fn shebang_consumed(nl_shebang: bool, lines: Seq<Seq<u8>>) -> int {
    if !starts_with(lines[0], shebang_pat()) {
        0
    } else if nl_shebang {
        2
    } else {
        1
    }
}

/// Check file lines from `idx` on against the template lines, one for one.
/// The first failure decides: a missing line is `UnexpectedEof`, a line
/// that does not match its pattern is `TemplateMismatch` carrying the
/// prefixed template line and the offending file line.
pub open spec fn check_template_lines(
    tlines: Seq<Seq<u8>>,
    comment: Seq<u8>,
    lines: Seq<Seq<u8>>,
    idx: int,
) -> Result<(), HeaderErr>
    decreases tlines.len(),
{
    if tlines.len() == 0 {
        Ok(())
    } else if idx >= lines.len() {
        Err(HeaderErr::UnexpectedEof)
    } else if !line_matches(tokenize(prefixed(comment, tlines[0])), lines[idx]) {
        Err(
            HeaderErr::TemplateMismatch {
                expected: prefixed(comment, tlines[0]),
                actual: lines[idx],
            },
        )
    } else {
        check_template_lines(tlines.skip(1), comment, lines, idx + 1)
    }
}

/// What the matcher decides for a file split into `lines`, given a resolved
/// comment prefix: empty files fail; a shebang line is consumed, with the
/// blank line after it when `nl_shebang` asks for one; each template line
/// must match; and when `nl_template` asks for it, the line after the
/// header, if any, must be blank.
pub open spec fn lint_spec(
    template: Seq<u8>,
    nl_shebang: bool,
    nl_template: bool,
    comment: Seq<u8>,
    lines: Seq<Seq<u8>>,
) -> Result<(), HeaderErr> {
    if lines.len() == 0 {
        Err(HeaderErr::EmptyFile)
    } else if starts_with(lines[0], shebang_pat()) && nl_shebang && lines.len() < 2 {
        Err(HeaderErr::UnexpectedEof)
    } else if starts_with(lines[0], shebang_pat()) && nl_shebang && lines[1].len() != 0 {
        Err(HeaderErr::MissingBlankAfterShebang)
    } else {
        let start = shebang_consumed(nl_shebang, lines);
        let tlines = split_lines(template);
        match check_template_lines(tlines, comment, lines, start) {
            Err(e) => Err(e),
            Ok(u) => {
                let end = start + tlines.len();
                if nl_template && end < lines.len() && lines[end].len() != 0 {
                    Err(HeaderErr::TrailingContentAfterTemplate)
                } else {
                    Ok(())
                }
            },
        }
    }
}

/// The matcher over a whole configuration: resolve the comment prefix for
/// the extension first, then check the file's lines.
pub open spec fn lint_full_spec(c: Config, ext: Seq<u8>, content: Seq<u8>) -> Result<
    (),
    HeaderErr,
> {
    match comment_for(c, ext) {
        None => Err(HeaderErr::UnsupportedExtension),
        Some(cm) => lint_spec(
            c.template@,
            c.newline_after_shebang,
            c.newline_after_template,
            cm,
            split_lines(content),
        ),
    }
}

/// Build the prefixed form of a template line: comment, space, line.
pub fn prefixed_exec(comment: &Vec<u8>, line: &Vec<u8>) -> (r: Vec<u8>)
    ensures
        r@ == prefixed(comment@, line@),
{
    let mut r: Vec<u8> = Vec::new();
    append_bytes(&mut r, comment);
    r.push(32u8);
    append_bytes(&mut r, line);
    proof {
        assert(r@ =~= prefixed(comment@, line@));
    }
    r
}

/// The header matcher. Decides `lint_full_spec` for the file content:
/// `Ok` exactly when the file's leading lines carry the expected header,
/// and otherwise the precise reason, as the specification states it.
pub fn lint(config: &Config, ext: &Vec<u8>, content: &Vec<u8>) -> (r: Result<(), HeaderError>)
    ensures
        match lint_full_spec(*config, ext@, content@) {
            Ok(u) => r is Ok,
            Err(e) => r is Err && err_view(r->Err_0) == e,
        },
{
    let comment = match get_comment(config, ext) {
        Ok(cm) => cm,
        Err(e) => {
            return Err(e);
        },
    };
    let ghost cm = comment_for(*config, ext@).unwrap();
    let lines = split_lines_exec(content);
    let tlines = split_lines_exec(&config.template);
    let ghost linesv = split_lines(content@);
    let ghost tlinesv = split_lines(config.template@);
    if lines.len() == 0 {
        return Err(HeaderError::EmptyFile);
    }
    let shebang = shebang_pat_vec();
    proof {
        assert(linesv[0] == lines@[0]@);
        assert(lines@[0]@.skip(0) =~= lines@[0]@);
    }
    let has_shebang = starts_with_at(&lines[0], 0, &shebang);
    let mut start: usize = 0;
    if has_shebang {
        if config.newline_after_shebang {
            if lines.len() < 2 {
                return Err(HeaderError::UnexpectedEof);
            }
            proof {
                assert(linesv[1] == lines@[1]@);
            }
            if lines[1].len() != 0 {
                return Err(HeaderError::MissingBlankAfterShebang);
            }
            start = 2;
        } else {
            start = 1;
        }
    }
    proof {
        assert(start == shebang_consumed(config.newline_after_shebang, linesv));
        assert(tlinesv.skip(0) =~= tlinesv);
    }
    let mut j: usize = 0;
    while j < tlines.len()
        invariant
            j <= tlines.len(),
            start + j <= linesv.len(),
            start <= 2,
            cm == comment@,
            comment_for(*config, ext@) == Some(cm),
            linesv == split_lines(content@),
            tlinesv == split_lines(config.template@),
            linesv.len() >= 1,
            start == shebang_consumed(config.newline_after_shebang, linesv),
            starts_with(linesv[0], shebang_pat()) && config.newline_after_shebang ==> linesv.len()
                >= 2 && linesv[1].len() == 0,
            linesv == views_of(lines@),
            tlinesv == views_of(tlines@),
            check_template_lines(tlinesv, cm, linesv, start as int) == check_template_lines(
                tlinesv.skip(j as int),
                cm,
                linesv,
                start + j,
            ),
        decreases tlines.len() - j,
    {
        let ghost rest = tlinesv.skip(j as int);
        proof {
            assert(rest[0] == tlinesv[j as int]);
            assert(tlinesv[j as int] == tlines@[j as int]@);
            assert(rest.skip(1) =~= tlinesv.skip(j + 1));
        }
        if j >= lines.len() - start {
            return Err(HeaderError::UnexpectedEof);
        }
        let idx = start + j;
        proof {
            assert(linesv[idx as int] == lines@[idx as int]@);
        }
        let expected = prefixed_exec(&comment, &tlines[j]);
        let toks = tokenize_exec(&expected);
        if !line_matches_exec(&toks, &lines[idx]) {
            let mut actual: Vec<u8> = Vec::new();
            append_bytes(&mut actual, &lines[idx]);
            proof {
                assert(actual@ =~= lines@[idx as int]@);
            }
            return Err(HeaderError::TemplateMismatch { expected, actual });
        }
        j += 1;
    }
    proof {
        assert(check_template_lines(tlinesv.skip(tlinesv.len() as int), cm, linesv, start
            + tlinesv.len()) == Ok::<(), HeaderErr>(()));
    }
    if config.newline_after_template {
        if lines.len() - start > tlines.len() {
            let end = start + tlines.len();
            proof {
                assert(linesv[end as int] == lines@[end as int]@);
            }
            if lines[end].len() != 0 {
                return Err(HeaderError::TrailingContentAfterTemplate);
            }
        }
    }
    Ok(())
}

} // verus!
