//! End-to-end tests for the header matcher and writer over concrete
//! configurations, file contents, authors and years.

use license_header::author::first_author;
use license_header::config::get_comment;
use license_header::config::Config;
use license_header::config::Lang;
use license_header::errors::HeaderError;
use license_header::lint::lint;

fn b(s: &str) -> Vec<u8> {
    s.as_bytes().to_vec()
}

fn config(template: &str, nl_shebang: bool, nl_template: bool) -> Config {
    Config {
        template: b(template),
        newline_after_shebang: nl_shebang,
        newline_after_template: nl_template,
        langs: vec![
            Lang { name: b("rust"), extensions: vec![b("rs")], comment: b("//") },
            Lang { name: b("py"), extensions: vec![b("py")], comment: b("#") },
        ],
    }
}

#[test]
fn concrete_scenario_writer_then_matcher() {
    let c = config("Copyright {year} {author}", true, true);
    let content = b("fn main(){}\n");
    let out = license_header::writer::format(&c, &b("rs"), &content, &b("Jane Doe"), &b("2024")).unwrap();
    assert_eq!(out, b("// Copyright 2024 Jane Doe\n\nfn main(){}\n"));
    assert!(lint(&c, &b("rs"), &out).is_ok());
}

#[test]
fn format_is_idempotent() {
    let c = config("Copyright {year} {author}", true, true);
    let content = b("fn main(){}\n");
    let out = license_header::writer::format(&c, &b("rs"), &content, &b("Jane Doe"), &b("2024")).unwrap();
    let out2 = license_header::writer::format(&c, &b("rs"), &out, &b("Somebody Else"), &b("1999")).unwrap();
    assert_eq!(out, out2);
}

#[test]
fn format_is_noop_on_compliant_file() {
    let c = config("Copyright {year} {author}", false, false);
    let content = b("// Copyright 2021 Ada Lovelace\nfn main(){}\n");
    assert!(lint(&c, &b("rs"), &content).is_ok());
    let out = license_header::writer::format(&c, &b("rs"), &content, &b("Other"), &b("2024")).unwrap();
    assert_eq!(out, content);
}

#[test]
fn year_must_be_exactly_four_digits() {
    let c = config("Copyright {year} x", false, false);
    assert!(lint(&c, &b("rs"), &b("// Copyright 2024 x\n")).is_ok());
    assert!(matches!(
        lint(&c, &b("rs"), &b("// Copyright 202 x\n")),
        Err(HeaderError::TemplateMismatch { .. })
    ));
    assert!(matches!(
        lint(&c, &b("rs"), &b("// Copyright 20245 x\n")),
        Err(HeaderError::TemplateMismatch { .. })
    ));
}

#[test]
fn author_accepts_words_rejects_empty() {
    let c = config("By {author} end", false, false);
    assert!(lint(&c, &b("rs"), &b("// By Jane Doe end\n")).is_ok());
    assert!(lint(&c, &b("rs"), &b("// By X end\n")).is_ok());
    assert!(matches!(
        lint(&c, &b("rs"), &b("// By  end\n")),
        Err(HeaderError::TemplateMismatch { .. })
    ));
}

#[test]
fn author_with_newline_breaks_the_header() {
    let c = config("Copyright {year} {author}", false, true);
    let content = b("fn main(){}\n");
    let out = license_header::writer::format(&c, &b("rs"), &content, &b("Jane\nDoe"), &b("2024")).unwrap();
    assert!(lint(&c, &b("rs"), &out).is_err());
}

#[test]
fn shebang_only_file_gets_two_blank_lines() {
    let c = config("Copyright {year} {author}", true, false);
    let content = b("#!/bin/sh");
    let out = license_header::writer::format(&c, &b("py"), &content, &b("Jane Doe"), &b("2024")).unwrap();
    assert_eq!(out, b("#!/bin/sh\n\n# Copyright 2024 Jane Doe\n"));
}

#[test]
fn shebang_gets_blank_line_inserted() {
    let c = config("Copyright {year} {author}", true, false);
    let content = b("#!/bin/sh\nmain\n");
    let out = license_header::writer::format(&c, &b("py"), &content, &b("Jane Doe"), &b("2024")).unwrap();
    assert_eq!(out, b("#!/bin/sh\n\n# Copyright 2024 Jane Doe\nmain\n"));
    assert!(lint(&c, &b("py"), &out).is_ok());
}

#[test]
fn shebang_existing_blank_line_is_reused() {
    let c = config("Copyright {year} {author}", true, false);
    let content = b("#!/bin/sh\n\nmain\n");
    let out = license_header::writer::format(&c, &b("py"), &content, &b("Jane Doe"), &b("2024")).unwrap();
    assert_eq!(out, b("#!/bin/sh\n\n# Copyright 2024 Jane Doe\nmain\n"));
}

#[test]
fn shebang_without_blank_line_convention() {
    let c = config("Copyright {year} {author}", false, false);
    let content = b("#!/bin/sh\nmain\n");
    let out = license_header::writer::format(&c, &b("py"), &content, &b("Jane Doe"), &b("2024")).unwrap();
    assert_eq!(out, b("#!/bin/sh\n# Copyright 2024 Jane Doe\nmain\n"));
    assert!(lint(&c, &b("py"), &out).is_ok());
}

#[test]
fn existing_header_is_refused() {
    let c = config("Copyright {year} {author}", false, false);
    let content = b("// some old comment\nfn main(){}\n");
    assert!(matches!(
        license_header::writer::format(&c, &b("rs"), &content, &b("Jane Doe"), &b("2024")),
        Err(HeaderError::LooksLikeExistingHeader)
    ));
}

#[test]
fn existing_header_after_shebang_is_refused() {
    let c = config("Copyright {year} {author}", false, false);
    let content = b("#!/bin/sh\n# old header\nmain\n");
    assert!(matches!(
        license_header::writer::format(&c, &b("py"), &content, &b("Jane Doe"), &b("2024")),
        Err(HeaderError::LooksLikeExistingHeader)
    ));
}

#[test]
fn extension_resolution() {
    let c = config("T", false, false);
    assert_eq!(get_comment(&c, &b("py")).unwrap(), b("#"));
    assert_eq!(get_comment(&c, &b("rs")).unwrap(), b("//"));
    assert!(matches!(
        get_comment(&c, &b("txt")),
        Err(HeaderError::UnsupportedExtension)
    ));
    assert!(matches!(
        lint(&c, &b("txt"), &b("x\n")),
        Err(HeaderError::UnsupportedExtension)
    ));
}

#[test]
fn empty_file_fails() {
    let c = config("T", false, false);
    assert!(matches!(
        lint(&c, &b("rs"), &b("")),
        Err(HeaderError::EmptyFile)
    ));
}

#[test]
fn missing_blank_after_shebang() {
    let c = config("T", true, false);
    assert!(matches!(
        lint(&c, &b("py"), &b("#!/bin/sh\nx\n")),
        Err(HeaderError::MissingBlankAfterShebang)
    ));
}

#[test]
fn shebang_alone_is_unexpected_eof() {
    let c = config("T", true, false);
    assert!(matches!(
        lint(&c, &b("py"), &b("#!/bin/sh")),
        Err(HeaderError::UnexpectedEof)
    ));
}

#[test]
fn file_shorter_than_template_is_unexpected_eof() {
    let c = config("line one\nline two", false, false);
    assert!(matches!(
        lint(&c, &b("rs"), &b("// line one\n")),
        Err(HeaderError::UnexpectedEof)
    ));
}

#[test]
fn template_mismatch_carries_both_lines() {
    let c = config("Copyright {year}", false, false);
    match lint(&c, &b("rs"), &b("// Copyleft 2024\n")) {
        Err(HeaderError::TemplateMismatch { expected, actual }) => {
            assert_eq!(expected, b("// Copyright {year}"));
            assert_eq!(actual, b("// Copyleft 2024"));
        }
        other => panic!("expected a template mismatch, got {:?}", other),
    }
}

#[test]
fn trailing_content_after_template() {
    let c = config("Copyright {year}", false, true);
    assert!(matches!(
        lint(&c, &b("rs"), &b("// Copyright 2024\nfn main(){}\n")),
        Err(HeaderError::TrailingContentAfterTemplate)
    ));
    assert!(lint(&c, &b("rs"), &b("// Copyright 2024\n\nfn main(){}\n")).is_ok());
}

#[test]
fn multi_line_template() {
    let c = config("Copyright {year} {author}\nAll rights reserved", false, false);
    let content = b("fn main(){}\n");
    let out = license_header::writer::format(&c, &b("rs"), &content, &b("Jane Doe"), &b("2024")).unwrap();
    assert_eq!(
        out,
        b("// Copyright 2024 Jane Doe\n// All rights reserved\nfn main(){}\n")
    );
    assert!(lint(&c, &b("rs"), &out).is_ok());
}

#[test]
fn first_author_picks_majority() {
    let names = vec![b("Alice"), b("Bob"), b("Alice")];
    assert_eq!(first_author(&names).unwrap(), b("Alice"));
}

#[test]
fn first_author_single_name() {
    let names = vec![b("Solo")];
    assert_eq!(first_author(&names).unwrap(), b("Solo"));
}

#[test]
fn first_author_without_names_fails() {
    let names: Vec<Vec<u8>> = Vec::new();
    assert!(matches!(
        first_author(&names),
        Err(HeaderError::NoAuthorInfo)
    ));
}

#[test]
fn matcher_search_is_unanchored() {
    let c = config("Copyright {year}", false, false);
    assert!(lint(&c, &b("rs"), &b("xx// Copyright 2024yy\n")).is_ok());
}

#[test]
fn format_on_unsupported_extension_fails() {
    let c = config("T", false, false);
    assert!(matches!(
        license_header::writer::format(&c, &b("txt"), &b("x\n"), &b("A"), &b("2024")),
        Err(HeaderError::UnsupportedExtension)
    ));
}

#[test]
fn format_on_empty_file_inserts_header_and_blank() {
    let c = config("Copyright {year} {author}", false, true);
    let out = license_header::writer::format(&c, &b("rs"), &b(""), &b("Jane Doe"), &b("2024"))
        .unwrap();
    assert_eq!(out, b("// Copyright 2024 Jane Doe\n\n"));
    assert!(lint(&c, &b("rs"), &out).is_ok());
}

#[test]
fn author_words_may_be_tab_separated() {
    let c = config("By {author}", false, false);
    assert!(lint(&c, &b("rs"), &b("// By Jane\tDoe\n")).is_ok());
}

#[test]
fn first_language_claiming_an_extension_wins() {
    let c = Config {
        template: b("T"),
        newline_after_shebang: false,
        newline_after_template: false,
        langs: vec![
            Lang { name: b("one"), extensions: vec![b("x")], comment: b(";;") },
            Lang { name: b("two"), extensions: vec![b("x")], comment: b("%%") },
        ],
    };
    assert_eq!(get_comment(&c, &b("x")).unwrap(), b(";;"));
}
