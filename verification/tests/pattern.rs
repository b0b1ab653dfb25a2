use bstr::ByteSlice;
use linegrep::matcher::{ByteSet, LineMatchKind, LineTerminator, Match, Matcher};
use linegrep::pattern::ast::{AstAnalysis, ItemNode, Node, SetNode};
use linegrep::pattern::ban;
use linegrep::pattern::error::ErrorKind;
use linegrep::pattern::hir::{ClassNode, HirNode, LOOK_END_CRLF, LOOK_START, LOOK_START_LF};
use linegrep::pattern::literals::{Extractor, Literal, LiteralSeq, TSeq};
use linegrep::pattern::matcher::{RegexMatcher, RegexMatcherBuilder};
use linegrep::pattern::non_matching::non_matching_bytes;
use linegrep::pattern::strip::{strip_from_match, strip_from_match_ascii};

fn default_builder() -> RegexMatcherBuilder {
    let mut builder = RegexMatcherBuilder::new();
    builder
        .multi_line(true)
        .unicode(true)
        .octal(false)
        .fixed_strings(false)
        .case_insensitive(true)
        .dot_matches_new_line(false)
        .line_terminator(Some(b'\n'))
        .ban_byte(Some(b'\x00'));
    builder
}

fn build(builder: &RegexMatcherBuilder, pattern: &str) -> RegexMatcher {
    match builder.build(pattern) {
        Ok(matcher) => matcher,
        Err(err) => panic!("{}", err.to_string()),
    }
}

fn kind_of(builder: &RegexMatcherBuilder, pattern: &str) -> ErrorKind {
    match builder.build(pattern) {
        Ok(_) => panic!("the pattern {pattern:?} compiles"),
        Err(err) => err.kind().clone(),
    }
}

#[test]
fn ripgrep_default_match() {
    let builder = default_builder();

    let patterns = vec![String::from("complex")];
    let matcher = builder.build_many(&patterns).unwrap();
    let result = matcher.is_match("regex engine is complex".as_bytes()).unwrap();
    assert_eq!(true, result);

    let patterns = vec![String::from("rgx")];
    let matcher = builder.build_many(&patterns).unwrap();
    let result = matcher.is_match("regex engine is complex".as_bytes()).unwrap();
    assert_eq!(false, result);

    let patterns = vec![String::from("^[A-Za-z\\s]+$")];
    let matcher = builder.build_many(&patterns).unwrap();
    let result = matcher.is_match("regex engine is complex".as_bytes()).unwrap();
    let result2 = matcher.is_match("2 regex engine is complex".as_bytes()).unwrap();
    assert_eq!(true, result);
    assert_eq!(false, result2);

    let patterns = vec![String::from("domain")];
    let matcher = builder.build_many(&patterns).unwrap();
    let data = r#"This is free and unencumbered software released into the public domain.

Anyone is free to copy, modify, publish, use, compile, sell, or
distribute this software, either in source code form or as a compiled
binary, for any purpose, commercial or non-commercial, and by any
means.

In jurisdictions that recognize copyright laws, the author or authors
of this software dedicate any and all copyright interest in the
software to the public domain. We make this dedication for the benefit
of the public at large and to the detriment of our heirs and
successors. We intend this dedication to be an overt act of
relinquishment in perpetuity of all present and future rights to this
software under copyright law.

THE SOFTWARE IS PROVIDED "AS IS", WITHOUT WARRANTY OF ANY KIND,
EXPRESS OR IMPLIED, INCLUDING BUT NOT LIMITED TO THE WARRANTIES OF
MERCHANTABILITY, FITNESS FOR A PARTICULAR PURPOSE AND NONINFRINGEMENT.
IN NO EVENT SHALL THE AUTHORS BE LIABLE FOR ANY CLAIM, DAMAGES OR
OTHER LIABILITY, WHETHER IN AN ACTION OF CONTRACT, TORT OR OTHERWISE,
ARISING FROM, OUT OF OR IN CONNECTION WITH THE SOFTWARE OR THE USE OR
OTHER DEALINGS IN THE SOFTWARE.

For more information, please refer to <http://unlicense.org/>
"#;
    let mut begin_at = 0;
    let mut found = Vec::new();
    loop {
        match matcher.find_at(data.as_bytes(), begin_at) {
            Ok(None) => break,
            Ok(Some(matched)) => {
                println!("find a match at: {matched:?}");
                found.push((matched.start(), matched.end()));
                begin_at = matched.end();
            }
            Err(_) => break,
        }
    }
    assert_eq!(found, vec![(64, 70), (438, 444)]);
    assert_eq!(&data.as_bytes()[found[1].0..found[1].1], b"domain");
}

#[test]
fn no_match() {
    let builder = default_builder();

    let patterns = vec![String::from("rgx")];
    let matcher = builder.build_many(&patterns).unwrap();
    let m = matcher.find_at("regex engine is complex".as_bytes(), 0);
    assert_eq!(m, Ok(None));
}

#[test]
fn line_terminator_match() {
    let builder = default_builder();

    let patterns = vec![String::from("complex")];
    let matcher = builder.build_many(&patterns).unwrap();
    let m = matcher.find_at("regex engine is complex\n".as_bytes(), 0);
    assert_eq!(m, Ok(Some(Match::new(16, 23))));
}

#[test]
fn case_insensitive_pattern_matches_uppercase_text() {
    let mut builder = RegexMatcherBuilder::new();
    builder.case_insensitive(true);
    let matcher = build(&builder, "complex");
    assert_eq!(matcher.is_match(b"Regex Engine Is COMPLEX"), Ok(true));
    assert_eq!(matcher.find_at(b"Regex Engine Is COMPLEX", 0), Ok(Some(Match::new(16, 23))));

    let sensitive = build(&RegexMatcherBuilder::new(), "complex");
    assert_eq!(sensitive.is_match(b"Regex Engine Is COMPLEX"), Ok(false));
    assert_eq!(sensitive.is_match(b"regex engine is complex"), Ok(true));
}

#[test]
fn smart_case_goes_by_the_literals_of_the_pattern() {
    let mut builder = RegexMatcherBuilder::new();
    builder.case_smart(true);
    assert_eq!(build(&builder, "complex").is_match(b"COMPLEX"), Ok(true));
    assert_eq!(build(&builder, "Complex").is_match(b"COMPLEX"), Ok(false));
    assert_eq!(build(&builder, "Complex").is_match(b"a Complex b"), Ok(true));
    assert_eq!(build(&builder, r"\w+").is_match(b"ABC"), Ok(true));
    assert_eq!(build(&builder, r"[a-c]x").is_match(b"BX"), Ok(true));
    assert_eq!(build(&builder, r"[A-c]x").is_match(b"bX"), Ok(false));
    assert_eq!(build(&builder, r"[A-c]x").is_match(b"Bx"), Ok(true));
}

#[test]
fn no_match_spans_a_line_terminator() {
    let mut builder = RegexMatcherBuilder::new();
    builder.dot_matches_new_line(true).line_terminator(Some(b'\n'));
    let matcher = build(&builder, "a.*b");
    assert_eq!(matcher.find_at(b"a\nb", 0), Ok(None));
    assert_eq!(matcher.find_at(b"a\n\n\nb\n", 0), Ok(None));
    assert_eq!(matcher.find_at(b"axxb\na\nb", 0), Ok(Some(Match::new(0, 4))));
    assert_eq!(matcher.find_at(b"a\nab\nb", 0), Ok(Some(Match::new(2, 4))));
    let haystack = b"a--\n--b a-b\nab--\nb--a\n-b-";
    let found = matcher.find_iter_at(haystack, 0, haystack.len()).unwrap();
    assert_eq!(found, vec![Match::new(8, 11), Match::new(12, 14)]);
    for m in found {
        assert!(!haystack[m.start()..m.end()].contains(&b'\n'));
    }

    let mut free = RegexMatcherBuilder::new();
    free.dot_matches_new_line(true);
    assert_eq!(build(&free, "a.*b").find_at(b"a\nb", 0), Ok(Some(Match::new(0, 3))));
}

#[test]
fn a_pattern_of_the_banned_byte_alone_is_refused() {
    let mut builder = RegexMatcherBuilder::new();
    builder.ban_byte(Some(0));
    assert!(matches!(kind_of(&builder, r"\x00"), ErrorKind::Banned(0)));
    assert!(matches!(kind_of(&builder, r"[\x00]"), ErrorKind::Banned(0)));
    assert!(matches!(kind_of(&builder, r"a\x00b"), ErrorKind::Banned(0)));
    assert!(matches!(kind_of(&builder, r"foo|(bar\x00)+"), ErrorKind::Banned(0)));
    assert!(builder.build(r"[\x00a]").is_ok());
    assert!(builder.build(r"[^a]").is_ok());
    assert!(builder.build("abc").is_ok());
    assert!(RegexMatcherBuilder::new().build(r"\x00").is_ok());

    builder.ban_byte(Some(b'z'));
    assert!(matches!(kind_of(&builder, "z"), ErrorKind::Banned(b'z')));
    assert!(builder.build(r"\x00").is_ok());
}

#[test]
fn ban_check_on_patterns() {
    assert!(ban::check(&HirNode::Empty, 0).is_ok());
    assert!(ban::check(&HirNode::Look(LOOK_START), 0).is_ok());
    assert!(ban::check(&HirNode::Literal(vec![1, 2, 3]), 0).is_ok());
    assert!(ban::check(&HirNode::Literal(vec![1, 0, 3]), 0).is_err());
    let single = HirNode::Class(ClassNode::Bytes(vec![(0, 0)]));
    assert!(matches!(ban::check(&single, 0).unwrap_err().kind(), ErrorKind::Banned(0)));
    assert!(ban::check(&single, 1).is_ok());
    assert!(ban::check(&HirNode::Class(ClassNode::Bytes(vec![(0, 1)])), 0).is_ok());
    assert!(ban::check(&HirNode::Class(ClassNode::Bytes(vec![(0, 0), (5, 5)])), 0).is_ok());
    assert!(ban::check(&HirNode::Class(ClassNode::Bytes(vec![])), 0).is_ok());
    assert!(ban::check(&HirNode::Class(ClassNode::Unicode(vec![('\0', '\0')])), 0).is_err());
    assert!(ban::check(&HirNode::Class(ClassNode::Unicode(vec![('\0', 'a')])), 0).is_ok());
    let nested = HirNode::Concat(vec![
        HirNode::Literal(vec![b'a']),
        HirNode::Alternation(vec![
            HirNode::Empty,
            HirNode::Repetition {
                min: 0,
                max: None,
                greedy: true,
                sub: Box::new(HirNode::Capture {
                    index: 1,
                    name: None,
                    sub: Box::new(HirNode::Literal(vec![b'q'])),
                }),
            },
        ]),
    ]);
    assert!(ban::check(&nested, b'q').is_err());
    assert!(ban::check(&nested, b'a').is_err());
    assert!(ban::check(&nested, b'b').is_ok());
}

#[test]
fn a_syntax_error_is_reported_with_its_text() {
    let builder = RegexMatcherBuilder::new();
    let err = builder.build("(").unwrap_err();
    match err.kind() {
        ErrorKind::Regex(text) => {
            assert!(text.contains("unclosed group"), "{text}");
            assert_eq!(&err.to_string(), text);
        }
        other => panic!("{other:?}"),
    }
    assert!(matches!(kind_of(&builder, r"\p{Foo}"), ErrorKind::Regex(_)));
    assert!(matches!(kind_of(&builder, r"a{2,1}"), ErrorKind::Regex(_)));
    assert!(matches!(kind_of(&builder, r"\8"), ErrorKind::Regex(_)));
}

#[test]
fn octal_escapes_have_to_be_allowed() {
    let mut builder = RegexMatcherBuilder::new();
    assert!(matches!(kind_of(&builder, r"\141"), ErrorKind::Regex(_)));
    builder.octal(true);
    assert_eq!(build(&builder, r"\141").is_match(b"a"), Ok(true));
}

#[test]
fn a_pattern_that_is_too_large_is_refused() {
    let mut builder = RegexMatcherBuilder::new();
    builder.size_limit(10);
    let err = builder.build(r"\w{20}").unwrap_err();
    match err.kind() {
        ErrorKind::Regex(text) => assert_eq!(text, "compiled regex exceeds size limit of 10"),
        other => panic!("{other:?}"),
    }
    assert_eq!(err.to_string(), "compiled regex exceeds size limit of 10");
}

#[test]
fn a_literal_line_terminator_is_not_allowed() {
    let mut builder = RegexMatcherBuilder::new();
    builder.line_terminator(Some(b'\n'));
    let err = builder.build("a\nb").unwrap_err();
    match err.kind() {
        ErrorKind::NotAllowed(lit) => assert_eq!(lit, "\n"),
        other => panic!("{other:?}"),
    }
    assert_eq!(err.to_string(), "the literal \"\\n\" is not allowed in a regex");
    assert!(matches!(kind_of(&builder, r"\n"), ErrorKind::NotAllowed(_)));
    assert!(matches!(kind_of(&builder, r"[\n]"), ErrorKind::NotAllowed(_)));
    assert!(builder.build(r"[\na]").is_ok());
    assert!(builder.build(r"\s").is_ok());

    builder.line_terminator(Some(b'x'));
    assert!(matches!(kind_of(&builder, "axb"), ErrorKind::NotAllowed(_)));
    assert!(builder.build("a\nb").is_ok());
}

#[test]
fn a_line_terminator_has_to_be_ascii() {
    let mut builder = RegexMatcherBuilder::new();
    builder.line_terminator(Some(0xFF));
    let err = builder.build("abc").unwrap_err();
    assert!(matches!(err.kind(), ErrorKind::InvalidLineTerminator(0xFF)));
    let shown = format!("{:?}", [0xFFu8].as_bstr());
    assert_eq!(
        err.to_string(),
        format!("line terminators must be ASCII, but {shown} is not"),
    );
    builder.line_terminator(Some(0x80));
    assert!(matches!(kind_of(&builder, ""), ErrorKind::InvalidLineTerminator(0x80)));
    builder.line_terminator(Some(0x7F));
    assert!(builder.build("abc").is_ok());
}

#[test]
fn a_banned_byte_is_shown_in_the_error() {
    let mut builder = RegexMatcherBuilder::new();
    builder.ban_byte(Some(0));
    let err = builder.build(r"\x00").unwrap_err();
    let shown = format!("{:?}", [0u8].as_bstr());
    assert_eq!(
        err.to_string(),
        format!("pattern contains {shown} but it is impossible to match"),
    );
    assert_eq!(err.to_string(), "pattern contains \"\\0\" but it is impossible to match");
}

#[test]
fn fixed_strings_are_taken_literally() {
    let mut builder = RegexMatcherBuilder::new();
    builder.fixed_strings(true);
    let matcher = build(&builder, "a.b*(c)");
    assert_eq!(matcher.is_match(b"xx a.b*(c) yy"), Ok(true));
    assert_eq!(matcher.is_match(b"axbbc"), Ok(false));
    let plain = build(&RegexMatcherBuilder::new(), "a.b*(c)");
    assert_eq!(plain.is_match(b"axbbc"), Ok(true));
    for meta in [
        "\\", ".", "+", "*", "?", "(", ")", "|", "[", "]", "{", "}", "^", "$", "#", "&", "-", "~",
    ] {
        let matcher = build(&builder, meta);
        assert_eq!(matcher.find_at(meta.as_bytes(), 0), Ok(Some(Match::new(0, 1))));
        assert_eq!(matcher.is_match(b"a"), Ok(false));
    }
}

#[test]
fn several_patterns_are_alternatives() {
    let builder = RegexMatcherBuilder::new();
    let patterns = vec![String::from("foo"), String::from("ba[rz]"), String::from("a|b")];
    let matcher = builder.build_many(&patterns).unwrap();
    assert_eq!(matcher.find_at(b"xx baz", 0), Ok(Some(Match::new(3, 6))));
    assert_eq!(matcher.find_at(b"xx bat", 0), Ok(Some(Match::new(3, 4))));
    assert_eq!(matcher.find_at(b"xx foo baz", 0), Ok(Some(Match::new(3, 6))));
    assert_eq!(matcher.find_at(b"xx foo baz", 6), Ok(Some(Match::new(7, 10))));
    assert_eq!(matcher.find_at(b"xx foo baz", 8), Ok(Some(Match::new(8, 9))));
    assert_eq!(matcher.find_at(b"xyz", 0), Ok(None));

    let none: Vec<String> = Vec::new();
    let empty = builder.build_many(&none).unwrap();
    assert_eq!(empty.find_at(b"abc", 1), Ok(Some(Match::new(1, 1))));

    let mut fixed = RegexMatcherBuilder::new();
    fixed.fixed_strings(true);
    let matcher = fixed.build_many(&[String::from("a|b"), String::from("c.")]).unwrap();
    assert_eq!(matcher.is_match(b"a"), Ok(false));
    assert_eq!(matcher.is_match(b"a|b"), Ok(true));
    assert_eq!(matcher.is_match(b"cx"), Ok(false));
    assert_eq!(matcher.is_match(b"c."), Ok(true));
}

#[test]
fn find_at_starts_at_the_given_offset() {
    let matcher = build(&RegexMatcherBuilder::new(), "ab");
    let haystack = b"ab ab ab";
    assert_eq!(matcher.find_at(haystack, 0), Ok(Some(Match::new(0, 2))));
    assert_eq!(matcher.find_at(haystack, 1), Ok(Some(Match::new(3, 5))));
    assert_eq!(matcher.find_at(haystack, 6), Ok(Some(Match::new(6, 8))));
    assert_eq!(matcher.find_at(haystack, 7), Ok(None));
    assert_eq!(matcher.find_at(haystack, 8), Ok(None));
    assert_eq!(matcher.shortest_match_at(haystack, 1), Ok(Some(5)));
    assert_eq!(matcher.shortest_match(haystack), Ok(Some(2)));
    assert_eq!(matcher.is_match_at(haystack, 7), Ok(false));
    assert_eq!(matcher.is_match_at(haystack, 6), Ok(true));
}

#[test]
fn find_iter_at_goes_on_behind_each_match() {
    let matcher = build(&RegexMatcherBuilder::new(), "ab");
    let haystack = b"ab ab ab";
    let all = matcher.find_iter_at(haystack, 0, haystack.len()).unwrap();
    assert_eq!(all, vec![Match::new(0, 2), Match::new(3, 5), Match::new(6, 8)]);
    let some = matcher.find_iter_at(haystack, 1, 6).unwrap();
    assert_eq!(some, vec![Match::new(3, 5)]);
    let none = matcher.find_iter_at(haystack, 9, 100).unwrap();
    assert!(none.is_empty());
    let none = matcher.find_iter_at(haystack, 0, 0).unwrap();
    assert!(none.is_empty());

    let empty = build(&RegexMatcherBuilder::new(), "x*");
    let all = empty.find_iter_at(b"ab", 0, 10).unwrap();
    assert_eq!(all, vec![Match::new(0, 0), Match::new(1, 1), Match::new(2, 2)]);
}

#[test]
fn a_matcher_without_cheaper_check_confirms_its_line() {
    let mut builder = RegexMatcherBuilder::new();
    builder.line_terminator(Some(b'\n'));
    let matcher = build(&builder, "foo|bar");
    match matcher.find_candidate_line(b"xx\nyy bar\nfoo") {
        Ok(Some(LineMatchKind::Confirmed(end))) => assert_eq!(end, 9),
        other => panic!("{other:?}"),
    }
    assert!(matches!(matcher.find_candidate_line(b"xx\nyy\n"), Ok(None)));
    match matcher.confirmed_line(b"foo") {
        Ok(Some(LineMatchKind::Confirmed(end))) => assert_eq!(end, 3),
        other => panic!("{other:?}"),
    }
}

#[test]
fn a_candidate_line_holds_a_literal_of_the_pattern() {
    let mut builder = RegexMatcherBuilder::new();
    builder.line_terminator(Some(b'\n'));
    for pattern in [r"\w+foobar\w+", r"(a|b)+needle[0-9]{3}x*y", r"zzz\d+"] {
        let matcher = build(&builder, pattern);
        let haystack: &[u8] = b"nothing here\nxfoobarx aneedle123y zzz7\nnor here\n";
        match matcher.find_candidate_line(haystack) {
            Ok(Some(LineMatchKind::Confirmed(at))) | Ok(Some(LineMatchKind::Candidate(at))) => {
                assert!((13..=38).contains(&at), "{pattern}: {at}");
            }
            other => panic!("{pattern}: {other:?}"),
        }
        assert!(matches!(matcher.find_candidate_line(b"nothing here\nnor here\n"), Ok(None)));
    }
}

#[test]
fn a_pattern_that_looks_at_the_haystack_has_no_line_terminator() {
    let mut builder = RegexMatcherBuilder::new();
    builder.line_terminator(Some(b'\n'));
    assert_eq!(build(&builder, "foo").line_terminator(), Some(LineTerminator::byte(b'\n')));
    assert_eq!(build(&builder, "^foo").line_terminator(), None);
    assert_eq!(build(&builder, r"foo\z").line_terminator(), None);
    builder.multi_line(true);
    assert_eq!(build(&builder, "^foo$").line_terminator(), Some(LineTerminator::byte(b'\n')));
    assert_eq!(build(&RegexMatcherBuilder::new(), "foo").line_terminator(), None);
}

fn members(set: &ByteSet) -> Vec<u8> {
    (0..=255u8).filter(|b| set.contains(*b)).collect()
}

fn non_members(set: &ByteSet) -> Vec<u8> {
    (0..=255u8).filter(|b| !set.contains(*b)).collect()
}

#[test]
fn non_matching_bytes_of_a_matcher() {
    let matcher = build(&RegexMatcherBuilder::new(), "abc");
    assert_eq!(non_members(matcher.non_matching_bytes()), b"abc");
    let matcher = build(&RegexMatcherBuilder::new(), "[a-c]+|(x)");
    assert_eq!(non_members(matcher.non_matching_bytes()), b"abcx");
    let matcher = build(&RegexMatcherBuilder::new(), "(?s:.)");
    assert!(members(matcher.non_matching_bytes()).iter().all(|b| *b >= 0xF5 || *b == 0xC0 || *b == 0xC1));
    assert!(!matcher.non_matching_bytes().contains(b'a'));
}

#[test]
fn non_matching_bytes_of_patterns() {
    assert_eq!(non_members(&non_matching_bytes(&HirNode::Empty)), b"");
    assert_eq!(non_members(&non_matching_bytes(&HirNode::Literal(b"hello".to_vec()))), b"ehlo");
    assert_eq!(non_members(&non_matching_bytes(&HirNode::Look(LOOK_START))), b"\n");
    assert_eq!(non_members(&non_matching_bytes(&HirNode::Look(LOOK_START_LF))), b"\n");
    assert_eq!(non_members(&non_matching_bytes(&HirNode::Look(LOOK_END_CRLF))), b"\n\r");
    assert_eq!(non_members(&non_matching_bytes(&HirNode::Look(64))), b"");
    let class = HirNode::Class(ClassNode::Bytes(vec![(b'a', b'c'), (b'x', b'x')]));
    assert_eq!(non_members(&non_matching_bytes(&class)), b"abcx");
    let class = HirNode::Class(ClassNode::Unicode(vec![('a', 'b'), ('\u{e9}', '\u{e9}')]));
    assert_eq!(non_members(&non_matching_bytes(&class)), [b'a', b'b', 0xA9, 0xC3]);
    let both = HirNode::Alternation(vec![
        HirNode::Literal(b"ab".to_vec()),
        HirNode::Concat(vec![
            HirNode::Literal(b"c".to_vec()),
            HirNode::Repetition {
                min: 1,
                max: Some(2),
                greedy: false,
                sub: Box::new(HirNode::Capture {
                    index: 1,
                    name: Some(String::from("n")),
                    sub: Box::new(HirNode::Literal(b"d".to_vec())),
                }),
            },
        ]),
    ]);
    assert_eq!(non_members(&non_matching_bytes(&both)), b"abcd");
}

#[test]
fn stripping_takes_the_terminator_out_of_classes() {
    let lf = LineTerminator::byte(b'\n');
    let class = HirNode::Class(ClassNode::Unicode(vec![('\t', '\r'), ('a', 'a')]));
    match strip_from_match(&class, lf) {
        Ok(HirNode::Class(ClassNode::Unicode(ranges))) => {
            assert_eq!(ranges, vec![('\t', '\t'), ('\u{b}', '\r'), ('a', 'a')]);
        }
        _ => panic!("not a class"),
    }
    let class = HirNode::Class(ClassNode::Bytes(vec![(0, 255)]));
    match strip_from_match(&class, lf) {
        Ok(HirNode::Class(ClassNode::Bytes(ranges))) => {
            assert_eq!(ranges, vec![(0, 9), (11, 255)]);
        }
        _ => panic!("not a class"),
    }
    match strip_from_match(&class, LineTerminator::crlf()) {
        Ok(HirNode::Class(ClassNode::Bytes(ranges))) => {
            assert_eq!(ranges, vec![(0, 9), (11, 12), (14, 255)]);
        }
        _ => panic!("not a class"),
    }
    let untouched = HirNode::Class(ClassNode::Bytes(vec![(b'a', b'z')]));
    match strip_from_match(&untouched, lf) {
        Ok(HirNode::Class(ClassNode::Bytes(ranges))) => assert_eq!(ranges, vec![(b'a', b'z')]),
        _ => panic!("not a class"),
    }
    let empty = HirNode::Class(ClassNode::Bytes(vec![]));
    match strip_from_match(&empty, lf) {
        Ok(HirNode::Class(ClassNode::Bytes(ranges))) => assert!(ranges.is_empty()),
        _ => panic!("not a class"),
    }
}

#[test]
fn stripping_fails_where_nothing_is_left() {
    let lf = LineTerminator::byte(b'\n');
    let only = HirNode::Class(ClassNode::Bytes(vec![(b'\n', b'\n')]));
    match strip_from_match(&only, lf) {
        Err(err) => assert!(matches!(err.kind(), ErrorKind::NotAllowed(lit) if lit == "\n")),
        Ok(_) => panic!("stripped"),
    }
    let only = HirNode::Class(ClassNode::Unicode(vec![('\n', '\n')]));
    assert!(strip_from_match(&only, lf).is_err());
    assert!(strip_from_match(&HirNode::Literal(b"a\nb".to_vec()), lf).is_err());
    assert!(strip_from_match(&HirNode::Literal(b"a\rb".to_vec()), lf).is_ok());
    assert!(strip_from_match(&HirNode::Literal(b"a\rb".to_vec()), LineTerminator::crlf()).is_err());
    let deep = HirNode::Concat(vec![
        HirNode::Empty,
        HirNode::Repetition {
            min: 0,
            max: None,
            greedy: true,
            sub: Box::new(HirNode::Alternation(vec![
                HirNode::Literal(b"x".to_vec()),
                HirNode::Literal(b"\n".to_vec()),
            ])),
        },
    ]);
    assert!(strip_from_match(&deep, lf).is_err());
    assert!(strip_from_match(&deep, LineTerminator::byte(b'y')).is_ok());
    match strip_from_match_ascii(&HirNode::Empty, 0x80) {
        Err(err) => assert!(matches!(err.kind(), ErrorKind::InvalidLineTerminator(0x80))),
        Ok(_) => panic!("stripped"),
    }
}

#[test]
fn stripping_keeps_the_rest_of_a_pattern() {
    let pattern = HirNode::Capture {
        index: 3,
        name: Some(String::from("name")),
        sub: Box::new(HirNode::Repetition {
            min: 2,
            max: Some(5),
            greedy: false,
            sub: Box::new(HirNode::Concat(vec![
                HirNode::Look(LOOK_START_LF),
                HirNode::Literal(b"ab".to_vec()),
            ])),
        }),
    };
    match strip_from_match(&pattern, LineTerminator::byte(b'\n')) {
        Ok(HirNode::Capture { index: 3, name: Some(name), sub }) => {
            assert_eq!(name, "name");
            match *sub {
                HirNode::Repetition { min: 2, max: Some(5), greedy: false, sub } => match *sub {
                    HirNode::Concat(subs) => {
                        assert_eq!(subs.len(), 2);
                        assert!(matches!(subs[0], HirNode::Look(LOOK_START_LF)));
                        assert!(matches!(&subs[1], HirNode::Literal(b) if b == b"ab"));
                    }
                    _ => panic!("not a concatenation"),
                },
                _ => panic!("not a repetition"),
            }
        }
        _ => panic!("not a group"),
    }
}

#[test]
fn analysis_of_the_literals_of_a_syntax_tree() {
    let none = AstAnalysis::from_ast(&Node::Dot);
    assert!(!none.any_literal() && !none.any_uppercase());
    let lower = AstAnalysis::from_ast(&Node::Literal('a'));
    assert!(lower.any_literal() && !lower.any_uppercase());
    let upper = AstAnalysis::from_ast(&Node::Literal('A'));
    assert!(upper.any_literal() && upper.any_uppercase());
    let greek = AstAnalysis::from_ast(&Node::Literal('\u{394}'));
    assert!(greek.any_uppercase());
    let digit = AstAnalysis::from_ast(&Node::Literal('7'));
    assert!(digit.any_literal() && !digit.any_uppercase());

    let tree = Node::Concat(vec![
        Node::Assertion,
        Node::Group(Box::new(Node::Alternation(vec![
            Node::Empty,
            Node::Repetition(Box::new(Node::ClassPerl)),
            Node::ClassBracketed(SetNode::BinaryOp(
                Box::new(SetNode::Item(ItemNode::Union(vec![
                    ItemNode::Ascii,
                    ItemNode::Range('a', 'Z'),
                ]))),
                Box::new(SetNode::Item(ItemNode::Bracketed(Box::new(SetNode::Item(
                    ItemNode::Literal('q'),
                ))))),
            )),
        ]))),
        Node::Flags,
    ]);
    let analysis = AstAnalysis::from_ast(&tree);
    assert!(analysis.any_literal() && analysis.any_uppercase());

    let classes = Node::Concat(vec![
        Node::ClassUnicode,
        Node::ClassBracketed(SetNode::Item(ItemNode::Union(vec![
            ItemNode::Unicode,
            ItemNode::Perl,
            ItemNode::Empty,
        ]))),
    ]);
    let analysis = AstAnalysis::from_ast(&classes);
    assert!(!analysis.any_literal() && !analysis.any_uppercase());
}

fn literal(bytes: &[u8]) -> Literal {
    Literal::exact(bytes.to_vec())
}

fn finite(lits: &[&[u8]]) -> TSeq {
    let mut seq = TSeq::infinite();
    seq.replace(LiteralSeq { literals: Some(lits.iter().map(|l| literal(l)).collect()) });
    seq
}

fn bytes_of(seq: &LiteralSeq) -> Option<Vec<(Vec<u8>, bool)>> {
    seq.literals.as_ref().map(|lits| lits.iter().map(|l| (l.bytes.clone(), l.exact)).collect())
}

#[test]
fn literals_keep_their_first_bytes() {
    let mut lit = literal(b"abcdef");
    lit.keep_first_bytes(10);
    assert_eq!((lit.bytes.clone(), lit.exact), (b"abcdef".to_vec(), true));
    lit.keep_first_bytes(6);
    assert!(lit.exact);
    lit.keep_first_bytes(2);
    assert_eq!((lit.bytes.clone(), lit.exact), (b"ab".to_vec(), false));
    lit.keep_first_bytes(0);
    assert!(lit.bytes.is_empty());
}

#[test]
fn sequences_know_their_measures() {
    let seq = finite(&[b"abc", b"de", b"fghi"]);
    assert!(seq.is_finite());
    assert_eq!(seq.len(), Some(3));
    assert_eq!(seq.min_literal_len(), Some(2));
    assert!(!seq.has_poisonous_literal());
    let none = finite(&[]);
    assert_eq!(none.len(), Some(0));
    assert_eq!(none.min_literal_len(), None);
    let infinite = TSeq::infinite();
    assert!(!infinite.is_finite());
    assert_eq!(infinite.len(), None);
    assert_eq!(infinite.min_literal_len(), None);
    assert!(!infinite.has_poisonous_literal());
    let one = TSeq::singleton(literal(b"xy"));
    assert_eq!(one.len(), Some(1));
    let mut gone = finite(&[b"abc"]);
    gone.make_infinite();
    assert!(!gone.is_finite());
}

#[test]
fn a_literal_that_matches_nearly_everywhere_is_poisonous() {
    assert!(finite(&[b"abc", b""]).has_poisonous_literal());
    assert!(finite(&[b" "]).has_poisonous_literal());
    assert!(finite(&[b"e"]).has_poisonous_literal());
    assert!(!finite(&[b"\x00"]).has_poisonous_literal());
    assert!(!finite(&[b"  "]).has_poisonous_literal());
}

#[test]
fn good_sequences_have_few_and_long_enough_literals() {
    assert!(finite(&[b"abc"]).is_good());
    assert!(finite(&[b"ab", b"cd"]).is_good());
    assert!(!finite(&[]).is_good());
    assert!(!TSeq::infinite().is_good());
    assert!(!finite(&[b"abc", b""]).is_good());
    assert!(finite(&[b"q", b"abc", b"z"]).is_good());
    assert!(!finite(&[b"q", b"abc", b"z", b"abcd"]).is_good());
    let many: Vec<Vec<u8>> = (0..64u8).map(|i| vec![b'a', i]).collect();
    let refs: Vec<&[u8]> = many.iter().map(|l| l.as_slice()).collect();
    assert!(finite(&refs).is_good());
    let more: Vec<Vec<u8>> = (0..65u8).map(|i| vec![b'a', i]).collect();
    let refs: Vec<&[u8]> = more.iter().map(|l| l.as_slice()).collect();
    assert!(!finite(&refs).is_good());

    assert!(finite(&[b"abc"]).is_really_good());
    assert!(!finite(&[b"ab"]).is_really_good());
    let eight: Vec<Vec<u8>> = (0..8u8).map(|i| vec![b'a', b'b', i]).collect();
    let refs: Vec<&[u8]> = eight.iter().map(|l| l.as_slice()).collect();
    assert!(finite(&refs).is_really_good());
    let nine: Vec<Vec<u8>> = (0..9u8).map(|i| vec![b'a', b'b', i]).collect();
    let refs: Vec<&[u8]> = nine.iter().map(|l| l.as_slice()).collect();
    assert!(!finite(&refs).is_really_good());
    assert!(!TSeq::infinite().is_really_good());
}

#[test]
fn the_better_of_two_sequences() {
    let picked = TSeq::infinite().pick(finite(&[b"ab"]));
    assert_eq!(picked.len(), Some(1));
    let picked = finite(&[b"ab"]).pick(TSeq::infinite());
    assert_eq!(picked.len(), Some(1));
    let picked = finite(&[b""]).pick(finite(&[b"a", b"b"]));
    assert_eq!(picked.len(), Some(2));
    let picked = finite(&[b"a", b"b"]).pick(finite(&[b""]));
    assert_eq!(picked.len(), Some(2));
    let picked = finite(&[b"ab"]).pick(finite(&[b"abc", b"abd"]));
    assert_eq!(picked.min_literal_len(), Some(3));
    let picked = finite(&[b"abc", b"abd"]).pick(finite(&[b"ab"]));
    assert_eq!(picked.min_literal_len(), Some(3));
    let picked = finite(&[b"ab"]).pick(finite(&[b"cd", b"ef"]));
    assert_eq!(picked.len(), Some(2));
    let picked = finite(&[b"cd", b"ef"]).pick(finite(&[b"ab"]));
    assert_eq!(picked.len(), Some(2));
    let picked = finite(&[b"ab"]).pick(finite(&[b"cd"]));
    assert_eq!(bytes_of(&picked.into_seq()), Some(vec![(b"ab".to_vec(), true)]));
    let picked = finite(&[]).pick(finite(&[b"cd"]));
    assert_eq!(picked.len(), Some(1));
}

#[test]
fn literals_are_extracted_from_patterns() {
    let extractor = Extractor::new();
    assert_eq!((extractor.limit_class, extractor.limit_repeat), (10, 10));
    assert_eq!((extractor.limit_literal_len, extractor.limit_total), (100, 64));
    let seq = extractor.extract_untagged(&HirNode::Literal(b"foobar".to_vec()));
    assert_eq!(bytes_of(&seq), Some(vec![(b"foobar".to_vec(), true)]));
    let seq = extractor.extract_untagged(&HirNode::Capture {
        index: 1,
        name: None,
        sub: Box::new(HirNode::Literal(b"foobar".to_vec())),
    });
    assert_eq!(bytes_of(&seq), Some(vec![(b"foobar".to_vec(), true)]));
    let seq = extractor.extract_untagged(&HirNode::Literal(vec![b'x'; 150]));
    assert_eq!(bytes_of(&seq), Some(vec![(vec![b'x'; 100], false)]));
    assert_eq!(bytes_of(&extractor.extract_untagged(&HirNode::Empty)), None);
    assert_eq!(bytes_of(&extractor.extract_untagged(&HirNode::Look(LOOK_START))), None);
    assert_eq!(bytes_of(&extractor.extract_untagged(&HirNode::Literal(b" ".to_vec()))), None);
    let seq = extractor.extract_untagged(&HirNode::Concat(vec![
        HirNode::Literal(b"foo".to_vec()),
        HirNode::Class(ClassNode::Bytes(vec![(b'1', b'2')])),
        HirNode::Repetition {
            min: 0,
            max: None,
            greedy: true,
            sub: Box::new(HirNode::Literal(b"z".to_vec())),
        },
    ]));
    let lits = bytes_of(&seq).unwrap();
    assert!(!lits.is_empty());
    for (bytes, _) in lits {
        assert!(bytes.starts_with(b"foo"));
    }
    let seq = extractor.extract_untagged(&HirNode::Alternation(vec![
        HirNode::Literal(b"abc".to_vec()),
        HirNode::Literal(b"xyz".to_vec()),
    ]));
    assert_eq!(bytes_of(&seq), Some(vec![(b"abc".to_vec(), true), (b"xyz".to_vec(), true)]));
    let any = HirNode::Class(ClassNode::Bytes(vec![(0, 255)]));
    assert_eq!(bytes_of(&extractor.extract_untagged(&any)), None);
}
