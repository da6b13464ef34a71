//! The configuration model: the header template, the two blank-line
//! conventions, and the language table that maps file extensions to
//! line-comment prefixes. All text is held as UTF-8 bytes.

use vstd::prelude::*;

use crate::errors::HeaderError;
use crate::text::bytes_eq;

verus! {

/// The rules for one language: the extensions it claims (without the dot)
/// and the line-comment prefix its headers use.
pub struct Lang {
    /// The language's name, as the configuration file spells it.
    pub name: Vec<u8>,
    /// File extensions, without the leading dot.
    pub extensions: Vec<Vec<u8>>,
    /// The line-comment prefix, e.g. `//`.
    pub comment: Vec<u8>,
}

/// The whole configuration: the header template with its `{author}` and
/// `{year}` placeholders, the blank-line conventions, and the language
/// table, kept as an ordered list so that lookup is deterministic.
pub struct Config {
    /// The header template; may span several lines.
    pub template: Vec<u8>,
    /// A blank line must separate a shebang from the header.
    pub newline_after_shebang: bool,
    /// A blank line must follow the header.
    pub newline_after_template: bool,
    /// The language rules, scanned in order; the first match wins.
    pub langs: Vec<Lang>,
}

/// Does `l` claim the extension `ext`?
pub open spec fn lang_has_ext(l: Lang, ext: Seq<u8>) -> bool {
    exists|i: int| 0 <= i < l.extensions@.len() && l.extensions@[i]@ == ext
}

/// The comment prefix of the first language in `langs` that claims `ext`,
/// or `None` when no language does.
pub open spec fn comment_for_langs(langs: Seq<Lang>, ext: Seq<u8>) -> Option<Seq<u8>>
    decreases langs.len(),
{
    if langs.len() == 0 {
        None
    } else if lang_has_ext(langs[0], ext) {
        Some(langs[0].comment@)
    } else {
        comment_for_langs(langs.skip(1), ext)
    }
}

/// The comment prefix `c` resolves for the extension `ext`.
pub open spec fn comment_for(c: Config, ext: Seq<u8>) -> Option<Seq<u8>> {
    comment_for_langs(c.langs@, ext)
}

/// Does `l` claim `ext`? Decides `lang_has_ext`.
fn lang_has_ext_exec(l: &Lang, ext: &Vec<u8>) -> (r: bool)
    ensures
        r == lang_has_ext(*l, ext@),
{
    let mut i: usize = 0;
    while i < l.extensions.len()
        invariant
            i <= l.extensions.len(),
            forall|k: int| 0 <= k < i ==> l.extensions@[k]@ != ext@,
        decreases l.extensions.len() - i,
    {
        if bytes_eq(&l.extensions[i], ext) {
            return true;
        }
        i += 1;
    }
    false
}

/// Resolve the comment prefix for a file extension by scanning the language
/// table in order; the first language claiming the extension wins. Fails
/// with `UnsupportedExtension` exactly when no language claims it.
pub fn get_comment(config: &Config, ext: &Vec<u8>) -> (r: Result<Vec<u8>, HeaderError>)
    ensures
        match comment_for(*config, ext@) {
            Some(cm) => r is Ok && r->Ok_0@ == cm,
            None => r is Err && r->Err_0 == HeaderError::UnsupportedExtension,
        },
{
    let mut i: usize = 0;
    proof {
        assert(config.langs@.skip(0) =~= config.langs@);
    }
    while i < config.langs.len()
        invariant
            i <= config.langs.len(),
            comment_for(*config, ext@) == comment_for_langs(config.langs@.skip(i as int), ext@),
        decreases config.langs.len() - i,
    {
        let ghost rest = config.langs@.skip(i as int);
        proof {
            assert(rest[0] == config.langs@[i as int]);
            assert(rest.skip(1) =~= config.langs@.skip(i + 1));
        }
        if lang_has_ext_exec(&config.langs[i], ext) {
            let mut cm: Vec<u8> = Vec::new();
            let src = &config.langs[i].comment;
            let mut j: usize = 0;
            while j < src.len()
                invariant
                    j <= src.len(),
                    cm@ == src@.take(j as int),
                decreases src.len() - j,
            {
                cm.push(src[j]);
                assert(cm@ =~= src@.take(j + 1));
                j += 1;
            }
            proof {
                assert(src@.take(src@.len() as int) =~= src@);
            }
            return Ok(cm);
        }
        i += 1;
    }
    Err(HeaderError::UnsupportedExtension)
}

} // verus!
