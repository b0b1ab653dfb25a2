use linegrep::matcher::{ErrorText, LineMatchKind, Match, Matcher, NoError};
use linegrep::pattern::matcher::{RegexMatcher, RegexMatcherBuilder};
use linegrep::searcher::glue::{ReadByLine, Step};
use linegrep::searcher::line_buffer::LineBufferBuilder;
use linegrep::searcher::search_core::{after_line, Core, FastMatchResult};
use linegrep::searcher::sink::{SearchError, Sink, SinkError, SinkMatch};
use linegrep::searcher::{Searcher, SearcherBuilder};

/// What a sink was told of one line.
#[derive(Debug, PartialEq, Eq, Clone)]
struct Seen {
    range: (usize, usize),
    offset: u64,
    line_number: Option<u64>,
    bytes: Vec<u8>,
}

/// Keeps what it is told, and asks to stop after `limit` lines.
struct Recorder {
    seen: Vec<Seen>,
    limit: usize,
}

impl Recorder {
    fn new() -> Recorder {
        Recorder { seen: Vec::new(), limit: usize::MAX }
    }

    fn stopping_after(limit: usize) -> Recorder {
        Recorder { seen: Vec::new(), limit }
    }

    fn lines(&self) -> Vec<&[u8]> {
        self.seen.iter().map(|s| s.bytes.as_slice()).collect()
    }
}

impl Sink for Recorder {
    type Error = SearchError;

    fn matched(&mut self, _searcher: &Searcher, mat: &SinkMatch<'_>) -> Result<bool, SearchError> {
        let range = mat.bytes_range_in_buffer();
        assert_eq!(&mat.buffer()[range.clone()], mat.bytes());
        self.seen.push(Seen {
            range: (range.start, range.end),
            offset: mat.absolute_byte_offset(),
            line_number: mat.line_number(),
            bytes: mat.bytes().to_vec(),
        });
        Ok(self.seen.len() < self.limit)
    }
}

/// A sink that fails on the first line.
struct Failing;

impl Sink for Failing {
    type Error = SearchError;

    fn matched(&mut self, _searcher: &Searcher, _mat: &SinkMatch<'_>) -> Result<bool, SearchError> {
        Err(SearchError::error_message(String::from("the sink is broken")))
    }
}

/// Reports every `x` as a match, and as line a candidate where `confirm`
/// is not set.
struct Xs {
    confirm: bool,
}

impl Matcher for Xs {
    type Error = NoError;

    fn find_at(&self, haystack: &[u8], at: usize) -> Result<Option<Match>, NoError> {
        Ok(haystack[at..].iter().position(|b| *b == b'x').map(|i| Match::new(at + i, at + i + 1)))
    }

    fn find_candidate_line(&self, haystack: &[u8]) -> Result<Option<LineMatchKind>, NoError> {
        if self.confirm {
            return self.confirmed_line(haystack);
        }
        let at = haystack.iter().position(|b| *b == b'x' || *b == b'y');
        Ok(at.map(LineMatchKind::Candidate))
    }
}

/// The error of `Tired`.
#[derive(Debug)]
struct GaveUp;

impl ErrorText for GaveUp {
    fn error_text(&self) -> String {
        String::from("the matcher gave up")
    }
}

/// Reports the line of the first `x`, and fails on a haystack that begins
/// with `!`.
struct Tired;

impl Matcher for Tired {
    type Error = GaveUp;

    fn find_at(&self, haystack: &[u8], at: usize) -> Result<Option<Match>, GaveUp> {
        if haystack[at..].first() == Some(&b'!') {
            return Err(GaveUp);
        }
        Ok(haystack[at..].iter().position(|b| *b == b'x').map(|i| Match::new(at + i, at + i + 1)))
    }

    fn find_candidate_line(&self, haystack: &[u8]) -> Result<Option<LineMatchKind>, GaveUp> {
        self.confirmed_line(haystack)
    }
}

fn matcher(pattern: &str) -> RegexMatcher {
    let mut builder = RegexMatcherBuilder::new();
    builder.line_terminator(Some(b'\n'));
    builder.build(pattern).unwrap()
}

fn search(pattern: &str, input: &[u8]) -> Vec<Seen> {
    let searcher = SearcherBuilder::new().build();
    let outcome = searcher.search_slice(&matcher(pattern), input, Recorder::new()).unwrap();
    assert!(outcome.finished);
    assert_eq!(outcome.has_match, !outcome.sink.seen.is_empty());
    assert_eq!(outcome.line_buffer.absolute_byte_offset(), input.len() as u64);
    outcome.sink.seen
}

const UNLICENSE: &str = "This is free and unencumbered software released into the public domain.";

#[test]
fn one_match_in_one_line() {
    let seen = search("domain", UNLICENSE.as_bytes());
    assert_eq!(seen.len(), 1);
    assert_eq!(seen[0].range, (0, 71));
    assert_eq!(seen[0].offset, 0);
    assert_eq!(seen[0].line_number, Some(1));
    assert_eq!(seen[0].bytes, UNLICENSE.as_bytes());
    let found = matcher("domain").find_iter_at(&seen[0].bytes, 0, seen[0].bytes.len()).unwrap();
    assert_eq!(found, vec![Match::new(64, 70)]);
}

#[test]
fn one_match_behind_seven_bytes() {
    let text = format!("       {UNLICENSE}\n");
    let seen = search("domain", text.as_bytes());
    assert_eq!(seen.len(), 1);
    assert_eq!(seen[0].line_number, Some(1));
    let found = matcher("domain").find_iter_at(&seen[0].bytes, 0, seen[0].bytes.len()).unwrap();
    assert_eq!(found, vec![Match::new(71, 77)]);
    assert_eq!(found[0].start() + 1, 72);
}

#[test]
fn matching_lines_come_in_order_with_their_numbers() {
    let input = b"one\ntwo x\nthree\n\nx five\nsix\nseven x";
    let seen = search("x", input);
    assert_eq!(
        seen,
        vec![
            Seen { range: (4, 10), offset: 4, line_number: Some(2), bytes: b"two x\n".to_vec() },
            Seen { range: (17, 24), offset: 17, line_number: Some(5), bytes: b"x five\n".to_vec() },
            Seen { range: (24, 28), offset: 24, line_number: Some(6), bytes: b"six\n".to_vec() },
            Seen { range: (0, 7), offset: 28, line_number: Some(7), bytes: b"seven x".to_vec() },
        ]
    );
}

#[test]
fn a_line_with_several_matches_comes_once() {
    let seen = search("a", b"aaa\nbab\nccc\n");
    assert_eq!(seen.len(), 2);
    assert_eq!(seen[0].bytes, b"aaa\n");
    assert_eq!(seen[1].bytes, b"bab\n");
    assert_eq!(seen[1].line_number, Some(2));
}

#[test]
fn nothing_matches() {
    assert!(search("zzz", b"one\ntwo\nthree").is_empty());
    assert!(search("zzz", b"").is_empty());
    assert!(search("a", b"\n\n\n").is_empty());
}

#[test]
fn lines_are_not_counted_where_that_is_not_asked_for() {
    let mut builder = SearcherBuilder::new();
    builder.line_number(false);
    let searcher = builder.build();
    let outcome = searcher.search_slice(&matcher("b"), b"a\nb\nc\nb", Recorder::new()).unwrap();
    let seen = outcome.sink.seen;
    assert_eq!(seen.len(), 2);
    assert_eq!(seen[0].line_number, None);
    assert_eq!(seen[1].line_number, None);
    assert_eq!(seen[0].offset, 2);
    assert_eq!(seen[1].offset, 6);
}

#[test]
fn a_sink_that_stops_gets_one_line() {
    let searcher = SearcherBuilder::new().build();
    let input = b"x1\nx2\nx3\nx4\n";
    let outcome =
        searcher.search_slice(&matcher("x"), input, Recorder::stopping_after(1)).unwrap();
    assert!(!outcome.finished);
    assert!(outcome.has_match);
    assert_eq!(outcome.sink.lines(), vec![b"x1\n"]);

    let outcome =
        searcher.search_slice(&matcher("x"), input, Recorder::stopping_after(3)).unwrap();
    assert!(!outcome.finished);
    assert_eq!(outcome.sink.lines(), vec![b"x1\n", b"x2\n", b"x3\n"]);

    let outcome =
        searcher.search_slice(&matcher("x"), input, Recorder::stopping_after(5)).unwrap();
    assert!(outcome.finished);
    assert_eq!(outcome.sink.seen.len(), 4);
}

#[test]
fn a_failing_sink_ends_the_search() {
    let searcher = SearcherBuilder::new().build();
    match searcher.search_slice(&matcher("x"), b"x1\nx2\n", Failing) {
        Err(err) => {
            assert_eq!(err.to_string(), "the sink is broken");
            assert!(err.io_cause.is_none());
        }
        Ok(_) => panic!("the search went on"),
    }
    let outcome = searcher.search_slice(&matcher("y"), b"x1\nx2\n", Failing);
    assert!(outcome.is_ok());
}

#[test]
fn a_failing_matcher_ends_the_search_with_its_text() {
    let searcher = SearcherBuilder::new().build();
    match searcher.search_slice(Tired, b"!x\nx\n", Recorder::new()) {
        Err(err) => {
            assert_eq!(err.to_string(), "the matcher gave up");
            assert!(err.io_cause.is_none());
        }
        Ok(_) => panic!("the search went on"),
    }
    match searcher.search_slice(Tired, b"x\n!x\n", Recorder::new()) {
        Err(err) => assert_eq!(err.to_string(), "the matcher gave up"),
        Ok(_) => panic!("the search went on"),
    }
    let outcome = searcher.search_slice(Tired, b"ax\nb\nx!\n", Recorder::new()).unwrap();
    assert!(outcome.finished);
    assert_eq!(outcome.sink.lines(), vec![&b"ax\n"[..], &b"x!\n"[..]]);
}

#[test]
fn long_lines_and_small_buffers_give_the_same_lines() {
    let mut input = Vec::new();
    for i in 0..200 {
        input.extend_from_slice(format!("line {i} ").as_bytes());
        input.extend(std::iter::repeat(b'-').take(i * 7 % 300));
        if i % 3 == 0 {
            input.extend_from_slice(b" needle");
        }
        input.push(b'\n');
    }
    input.extend_from_slice(b"last needle");
    let searcher = SearcherBuilder::new().build();
    let expected = searcher.search_slice(&matcher("needle"), &input, Recorder::new()).unwrap();
    assert_eq!(expected.sink.seen.len(), 68);
    for capacity in [0usize, 1, 5, 64, 1000] {
        for chunk in [1usize, 3, 50, 10000] {
            let m = matcher("needle");
            let mut builder = LineBufferBuilder::new();
            builder.capacity(capacity);
            let mut search = ReadByLine::new(&searcher, &m, builder.build(), Recorder::new());
            let mut at = 0;
            let finished = loop {
                let n = search.wanted().min(chunk).min(input.len() - at);
                let step = search.feed(&input[at..at + n]).unwrap();
                at += n;
                match step {
                    Step::Read(want) => assert_eq!(want, search.wanted()),
                    Step::Stopped => break false,
                    Step::Finished => break true,
                }
            };
            assert!(finished);
            assert!(search.has_matched());
            let (buffer, sink) = search.finish();
            assert_eq!(buffer.absolute_byte_offset(), input.len() as u64);
            assert_eq!(sink.seen.len(), 68);
            for (got, want) in sink.seen.iter().zip(expected.sink.seen.iter()) {
                assert_eq!(got.bytes, want.bytes);
                assert_eq!(got.offset, want.offset);
                assert_eq!(got.line_number, want.line_number);
            }
        }
    }
}

#[test]
fn a_failed_read_gives_an_error_of_the_sink() {
    let err = ReadByLine::<&RegexMatcher, Recorder>::fail(String::from("disk on fire"));
    assert_eq!(err.message, "disk on fire");
    assert_eq!(err.io_cause.as_deref(), Some("disk on fire"));
    let plain = SearchError::error_message(String::from("oops"));
    assert_eq!(plain.to_string(), "oops");
    assert!(plain.io_cause.is_none());
}

#[test]
fn candidate_lines_are_confirmed() {
    let searcher = SearcherBuilder::new().build();
    let input = b"y\nx\nyy\nyx\nz\n";
    let outcome = searcher.search_slice(&Xs { confirm: false }, input, Recorder::new()).unwrap();
    assert_eq!(outcome.sink.lines(), vec![b"x\n".as_slice(), b"yx\n"]);
    assert_eq!(outcome.sink.seen[0].line_number, Some(2));
    assert_eq!(outcome.sink.seen[1].line_number, Some(4));
    let confirmed = searcher.search_slice(&Xs { confirm: true }, input, Recorder::new()).unwrap();
    assert_eq!(confirmed.sink.seen, outcome.sink.seen);
}

#[test]
fn patterns_with_a_cheaper_check_find_the_same_lines() {
    let input = b"alpha foobar1\nbeta\ngamma xfoobarx\nfoobar\n delta foobar9 foobar8\n";
    for (pattern, lines) in [
        (r"\w+foobar\w+", vec![b"gamma xfoobarx\n".as_slice()]),
        (r"foobar\d", vec![b"alpha foobar1\n".as_slice(), b" delta foobar9 foobar8\n"]),
        (r"(alpha|delta) foobar", vec![b"alpha foobar1\n".as_slice(), b" delta foobar9 foobar8\n"]),
    ] {
        let seen = search(pattern, input);
        let got: Vec<&[u8]> = seen.iter().map(|s| s.bytes.as_slice()).collect();
        assert_eq!(got, lines, "{pattern}");
    }
    let mut builder = RegexMatcherBuilder::new();
    builder.line_terminator(Some(b'\n')).multi_line(true);
    let m = builder.build(r"^foobar$").unwrap();
    let searcher = SearcherBuilder::new().build();
    let outcome = searcher.search_slice(&m, input, Recorder::new()).unwrap();
    assert_eq!(outcome.sink.lines(), vec![b"foobar\n"]);
    assert_eq!(outcome.sink.seen[0].line_number, Some(4));
}

#[test]
fn the_matching_loop_over_one_buffer() {
    let searcher = SearcherBuilder::new().build();
    let m = matcher("b");
    let mut core = Core::new(&searcher, &m, Recorder::new());
    assert!(!core.has_matched());
    let buf = b"a\nb\nc\nbb\n";
    assert_eq!(core.match_by_line(buf).unwrap(), true);
    assert!(core.has_matched());
    assert_eq!(core.roll(buf), buf.len());
    let next = b"d\nb";
    assert_eq!(core.match_by_line(next).unwrap(), true);
    let sink = core.into_sink();
    assert_eq!(
        sink.seen,
        vec![
            Seen { range: (2, 4), offset: 2, line_number: Some(2), bytes: b"b\n".to_vec() },
            Seen { range: (6, 9), offset: 6, line_number: Some(4), bytes: b"bb\n".to_vec() },
            Seen { range: (2, 3), offset: 11, line_number: Some(6), bytes: b"b".to_vec() },
        ]
    );
}

#[test]
fn searcher_options() {
    let searcher = SearcherBuilder::new().build();
    assert!(!searcher.multi_line());
    assert!(!searcher.multi_line_with_matcher(&matcher("a")));
    assert_eq!(searcher.line_terminator().as_byte(), b'\n');
    let buffer = searcher.line_buffer();
    assert!(buffer.buffer().is_empty());
}

#[test]
fn the_answer_of_the_sink_decides_how_the_search_goes_on() {
    assert_eq!(after_line::<SearchError>(Ok(true)).unwrap(), FastMatchResult::Continue);
    assert_eq!(after_line::<SearchError>(Ok(false)).unwrap(), FastMatchResult::Stop);
    let err = after_line(Err(SearchError::error_message(String::from("full")))).unwrap_err();
    assert_eq!(err.to_string(), "full");
}

/// A sink that fails on the second line.
struct Once {
    calls: usize,
}

impl Sink for Once {
    type Error = SearchError;

    fn matched(&mut self, _searcher: &Searcher, _mat: &SinkMatch<'_>) -> Result<bool, SearchError> {
        self.calls += 1;
        if self.calls == 2 {
            return Err(SearchError::error_message(String::from("no more")));
        }
        Ok(true)
    }
}

#[test]
fn a_sink_that_fails_is_told_of_no_further_line() {
    let searcher = SearcherBuilder::new().build();
    let mut core = Core::new(&searcher, matcher("x"), Once { calls: 0 });
    let r = core.match_by_line(b"x1\nx2\nx3\nx4\n");
    assert_eq!(r.unwrap_err().to_string(), "no more");
    assert_eq!(core.into_sink().calls, 2);
}

#[test]
fn a_matcher_that_fails_behind_a_line_is_reported_after_that_line() {
    let searcher = SearcherBuilder::new().build();
    let mut core = Core::new(&searcher, Tired, Recorder::new());
    let r = core.match_by_line(b"x1\n!x\nx3\n");
    assert_eq!(r.unwrap_err().to_string(), "the matcher gave up");
    let sink = core.into_sink();
    assert_eq!(sink.lines(), vec![&b"x1\n"[..]]);
}

/// Finds a match in every line.
struct EveryLine;

impl Matcher for EveryLine {
    type Error = NoError;

    fn find_at(&self, haystack: &[u8], at: usize) -> Result<Option<Match>, NoError> {
        Ok(if at < haystack.len() { Some(Match::new(at, at)) } else { None })
    }

    fn find_candidate_line(&self, haystack: &[u8]) -> Result<Option<LineMatchKind>, NoError> {
        Ok(if haystack.is_empty() { None } else { Some(LineMatchKind::Confirmed(0)) })
    }
}

#[test]
fn where_every_line_matches_the_lines_add_up_to_the_input() {
    let searcher = SearcherBuilder::new().build();
    for input in [&b"a\nbb\n\nccc"[..], &b"\n\n"[..], &b"one line"[..], &b""[..]] {
        for capacity in [0usize, 1, 3, 100] {
            let mut builder = LineBufferBuilder::new();
            builder.capacity(capacity);
            let search = ReadByLine::new(&searcher, EveryLine, builder.build(), Recorder::new());
            let outcome = search.run(input).unwrap();
            assert!(outcome.finished);
            let seen = outcome.sink.seen;
            let told: Vec<u8> = seen.iter().flat_map(|s| s.bytes.iter().copied()).collect();
            assert_eq!(told, input);
            for (i, line) in seen.iter().enumerate() {
                assert_eq!(line.line_number, Some(i as u64 + 1));
                let body = &line.bytes[..line.bytes.len() - 1];
                assert!(!body.contains(&b'\n'));
                assert!(i + 1 == seen.len() || line.bytes.ends_with(b"\n"));
            }
        }
    }
}
