use linegrep::matcher::{LineTerminator, Match};
use linegrep::pattern::matcher::{RegexMatcher, RegexMatcherBuilder};
use linegrep::printer::color::{Color, ColorSpec, ColorSpecs};
use linegrep::printer::counter::{CounterWriter, WriteOp};
use linegrep::printer::standard::{Config, Standard, StandardBuilder, StandardImpl};
use linegrep::printer::stats::Stats;
use linegrep::printer::util::{
    find_iter_at_in_context, trim_ascii_prefix, trim_line_terminator, DecimalFormatter,
    PrinterPath, Sunk,
};
use linegrep::searcher::sink::{Sink, SinkMatch};
use linegrep::searcher::{Searcher, SearcherBuilder};

/// What a terminal shows of `ops`: the bytes written, with `<fg>` where a
/// colour with that foreground is set, `<*fg>` where it is bold, and `</>`
/// where colours are taken back.
fn render(ops: &[WriteOp]) -> String {
    let mut out = String::new();
    for op in ops {
        match op {
            WriteOp::Write(bytes) => out.push_str(&String::from_utf8_lossy(bytes)),
            WriteOp::Reset => out.push_str("</>"),
            WriteOp::SetColor(spec) => {
                let bold = if spec.bold { "*" } else { "" };
                match spec.fg_color {
                    Some(color) => out.push_str(&format!("<{bold}{color:?}>")),
                    None => out.push_str(&format!("<{bold}>")),
                }
            }
        }
    }
    out
}

fn matcher(pattern: &str) -> RegexMatcher {
    let mut builder = RegexMatcherBuilder::new();
    builder.line_terminator(Some(b'\n'));
    builder.build(pattern).unwrap()
}

/// Searches `input` for `pattern` and formats the matching lines for the
/// file `path`; gives back the formatter and what it wrote.
fn format(printer: Standard, pattern: &str, path: &str, input: &[u8]) -> (Standard, String) {
    let searcher = SearcherBuilder::new().build();
    let m = matcher(pattern);
    let sink = printer.sink_with_path(&m, path.as_bytes());
    let outcome = searcher.search_slice(&m, input, sink).unwrap();
    assert!(outcome.finished);
    assert_eq!(outcome.sink.has_match(), outcome.has_match);
    let mut printer = outcome.sink.into_printer();
    let ops = printer.take_ops();
    assert!(printer.take_ops().is_empty());
    printer.reset_count();
    (printer, render(&ops))
}

fn plain(builder: &StandardBuilder) -> Standard {
    builder.build(false)
}

const UNLICENSE: &str = "This is free and unencumbered software released into the public domain.";

#[test]
fn print() {
    let mut builder = StandardBuilder::new();
    builder.max_columns(Option::Some(4096)).trim_ascii(true);
    let standard = builder.build(true);

    let bytes = "software to the public domain. We make this dedication for the benefit".as_bytes();
    let binding = vec![Match::new(25, 29)];
    let matches = binding.as_slice();

    let searcher = SearcherBuilder::new().build();
    let mut wtr = CounterWriter::new(true);
    let mut standard_impl = StandardImpl::new(&searcher, standard.options(), b"");
    standard_impl.write_colored_line(&mut wtr, matches, bytes);
    assert_eq!(
        render(&wtr.take_ops()),
        "software to the public do<*Red>main</>. We make this dedication for the benefit\n"
    );
    assert_eq!(wtr.count(), 71);
}

#[test]
fn a_line_with_its_number_and_column() {
    let mut builder = StandardBuilder::new();
    builder.heading(false).column(true);
    let (_, out) = format(plain(&builder), "domain", "LICENSE", UNLICENSE.as_bytes());
    assert_eq!(out, format!("LICENSE:1:65:{UNLICENSE}\n"));

    let indented = format!("       {UNLICENSE}\n");
    let (_, out) = format(plain(&builder), "domain", "LICENSE", indented.as_bytes());
    assert_eq!(out, format!("LICENSE:1:72:{indented}"));
}

#[test]
fn a_line_that_is_too_long_is_left_out() {
    let line = vec![b'a'; 5000];
    let mut builder = StandardBuilder::new();
    builder.max_columns(Some(100));
    let (_, out) = format(plain(&builder), "a", "long", &line);
    assert_eq!(out, "long\n1:[Omitted long context line]\n");
    let (_, out) = format(builder.build(true), "a", "long", &line);
    assert_eq!(out, "<Magenta>long</>\n<Green>1</>:[Omitted long context line]\n");

    let mut with_terminator = line.clone();
    with_terminator.push(b'\n');
    let (_, out) = format(plain(&builder), "a", "long", &with_terminator);
    assert_eq!(out, "long\n1:[Omitted long context line]\n");

    builder.max_columns(Some(5000));
    let (_, out) = format(plain(&builder), "a", "long", &line);
    assert_eq!(out, format!("long\n1:{}\n", "a".repeat(5000)));
    builder.max_columns(Some(4999));
    let (_, out) = format(plain(&builder), "a", "long", &line);
    assert_eq!(out, "long\n1:[Omitted long context line]\n");
}

#[test]
fn the_path_stands_above_the_lines_of_its_file() {
    let builder = StandardBuilder::new();
    let input = b"one\ntwo x\nthree\nfour x\n";
    let (printer, out) = format(plain(&builder), "x", "a.txt", input);
    assert_eq!(out, "a.txt\n2:two x\n4:four x\n");
    let (printer, out) = format(printer, "x", "b.txt", b"x");
    assert_eq!(out, "\nb.txt\n1:x\n");
    let (printer, out) = format(printer, "x", "c.txt", b"nothing");
    assert_eq!(out, "");
    let (_, out) = format(printer, "o", "d.txt", b"nothing");
    assert_eq!(out, "\nd.txt\n1:nothing\n");
}

#[test]
fn the_path_stands_before_each_line() {
    let mut builder = StandardBuilder::new();
    builder.heading(false);
    let input = b"one\ntwo x\nthree\nfour x\n";
    let (printer, out) = format(plain(&builder), "x", "a.txt", input);
    assert_eq!(out, "a.txt:2:two x\na.txt:4:four x\n");
    let (_, out) = format(printer, "x", "b.txt", b"x");
    assert_eq!(out, "\nb.txt:1:x\n");

    builder.path_terminator(Some(0));
    let (_, out) = format(plain(&builder), "x", "a.txt", input);
    assert_eq!(out, "a.txt\u{0}2:two x\na.txt\u{0}4:four x\n");
    builder.heading(true);
    let (_, out) = format(plain(&builder), "x", "a.txt", input);
    assert_eq!(out, "a.txt\u{0}2:two x\n4:four x\n");
}

#[test]
fn lines_without_numbers() {
    let mut builder = SearcherBuilder::new();
    builder.line_number(false);
    let searcher = builder.build();
    let m = matcher("x");
    let mut printer = StandardBuilder::new();
    printer.heading(false).column(true);
    let sink = printer.build(false).sink_with_path(&m, b"f");
    let outcome = searcher.search_slice(&m, b"a\n  x\n", sink).unwrap();
    let mut sink = outcome.sink;
    assert_eq!(render(&sink.take_ops()), "f:3:  x\n");

    let mut printer = StandardBuilder::new();
    printer.heading(true);
    let sink = printer.build(false).sink_with_path(&m, b"f");
    let outcome = searcher.search_slice(&m, b"a\n  x\n", sink).unwrap();
    let mut sink = outcome.sink;
    assert_eq!(render(&sink.take_ops()), "f\n  x\n");
}

#[test]
fn matches_are_shown_in_colour() {
    let mut builder = StandardBuilder::new();
    builder.heading(false).column(true);
    let input = b"foo bar foo\nbar\nfoofoo\nxfoo";
    let (_, out) = format(builder.build(true), "foo", "p", input);
    assert_eq!(
        out,
        "<Magenta>p</>:<Green>1</>:<>1</>:<*Red>foo</> bar <*Red>foo</>\n\
         <Magenta>p</>:<Green>3</>:<>1</>:<*Red>foofoo</>\n\
         <Magenta>p</>:<Green>4</>:<>2</>:x<*Red>foo</>\n"
    );
    let (_, out) = format(builder.build(false), "foo", "p", input);
    assert_eq!(out, "p:1:1:foo bar foo\np:3:1:foofoo\np:4:2:xfoo\n");
}

#[test]
fn colours_can_be_chosen() {
    let mut yellow = ColorSpec::new();
    yellow.fg_color = Some(Color::Yellow);
    let specs = ColorSpecs::new(ColorSpec::new(), yellow, yellow, ColorSpec::new());
    let mut builder = StandardBuilder::new();
    builder.color_specs(specs).column(true);
    let (_, out) = format(builder.build(true), "b", "p", b"abc");
    assert_eq!(out, "<>p</>\n<Yellow>1</>:<Yellow>2</>:abc\n");
}

#[test]
fn white_space_at_the_start_is_left_out_on_request() {
    let mut builder = StandardBuilder::new();
    builder.trim_ascii(true);
    let input = b" \t  indented x\n\x0b\x0c\rx\n";
    let (_, out) = format(plain(&builder), "x", "p", input);
    assert_eq!(out, "p\n1:indented x\n2:x\n");
    let (_, out) = format(builder.build(true), "x", "p", input);
    assert_eq!(
        out,
        "<Magenta>p</>\n<Green>1</>:indented <*Red>x</>\n<Green>2</>:<*Red>x</>\n"
    );
    builder.trim_ascii(false);
    let (_, out) = format(plain(&builder), "x", "p", b"  x");
    assert_eq!(out, "p\n1:  x\n");
}

#[test]
fn every_line_ends_in_one_terminator() {
    let builder = StandardBuilder::new();
    for input in [b"x".as_slice(), b"x\n", b"ax\nbx", b"ax\nbx\n"] {
        for colour in [false, true] {
            let (_, out) = format(builder.build(colour), "x", "p", input);
            assert!(out.ends_with("x\n") || out.ends_with("x</>\n"), "{out:?}");
            assert!(!out.contains("\n\n"), "{out:?}");
        }
    }
}

#[test]
fn the_sink_counts_its_lines() {
    let searcher = SearcherBuilder::new().build();
    let m = matcher("x");
    let mut sink = StandardBuilder::new().build(false).sink_with_path(&m, b"p");
    assert!(!sink.has_match());
    let line = SinkMatch::new(LineTerminator::byte(b'\n'), b"a\nxx\n", Match::new(2, 5), 2, Some(2));
    assert_eq!(sink.matched(&searcher, &line).unwrap(), true);
    assert!(sink.has_match());
    assert_eq!(render(&sink.take_ops()), "p\n2:xx\n");
}

#[test]
fn decimal_numbers() {
    assert_eq!(DecimalFormatter::new(0).as_bytes(), b"0");
    assert_eq!(DecimalFormatter::new(7).as_bytes(), b"7");
    assert_eq!(DecimalFormatter::new(10).as_bytes(), b"10");
    assert_eq!(DecimalFormatter::new(12).as_bytes(), b"12");
    assert_eq!(DecimalFormatter::new(12345).as_bytes(), b"12345");
    assert_eq!(DecimalFormatter::new(1000000).as_bytes(), b"1000000");
    assert_eq!(DecimalFormatter::new(u64::MAX).as_bytes(), b"18446744073709551615");
    for n in [9u64, 99, 100, 101, 4096, 65535, 1 << 40] {
        assert_eq!(DecimalFormatter::new(n).as_bytes(), n.to_string().as_bytes());
    }
}

#[test]
fn trimming_the_start_of_a_line() {
    let lf = LineTerminator::byte(b'\n');
    let line = b"  \t x  ";
    let rest = trim_ascii_prefix(lf, line, Match::new(0, line.len()));
    assert_eq!((rest.start(), rest.end()), (4, 7));
    let rest = trim_ascii_prefix(lf, line, Match::new(1, 3));
    assert_eq!((rest.start(), rest.end()), (3, 3));
    let rest = trim_ascii_prefix(lf, b" \n x", Match::new(0, 4));
    assert_eq!((rest.start(), rest.end()), (1, 4));
    let rest = trim_ascii_prefix(LineTerminator::byte(b'x'), b" \n x", Match::new(0, 4));
    assert_eq!((rest.start(), rest.end()), (3, 4));
    let rest = trim_ascii_prefix(LineTerminator::crlf(), b" \r\n", Match::new(0, 3));
    assert_eq!((rest.start(), rest.end()), (1, 3));
    let rest = trim_ascii_prefix(lf, b" \r\n", Match::new(0, 3));
    assert_eq!((rest.start(), rest.end()), (2, 3));
    let rest = trim_ascii_prefix(lf, b"abc", Match::new(0, 3));
    assert_eq!((rest.start(), rest.end()), (0, 3));
    let rest = trim_ascii_prefix(lf, b"", Match::new(0, 0));
    assert_eq!((rest.start(), rest.end()), (0, 0));
}

fn searcher() -> Searcher {
    SearcherBuilder::new().build()
}

#[test]
fn trimming_the_end_of_a_line() {
    let buf = b"ab\ncd\r\nef";
    let mut line = Match::new(0, 3);
    trim_line_terminator(&searcher(), buf, &mut line);
    assert_eq!((line.start(), line.end()), (0, 2));
    let mut line = Match::new(3, 7);
    trim_line_terminator(&searcher(), buf, &mut line);
    assert_eq!((line.start(), line.end()), (3, 6));
    let mut line = Match::new(7, 9);
    trim_line_terminator(&searcher(), buf, &mut line);
    assert_eq!((line.start(), line.end()), (7, 9));
    let mut line = Match::new(2, 3);
    trim_line_terminator(&searcher(), buf, &mut line);
    assert_eq!((line.start(), line.end()), (2, 2));
    let mut line = Match::new(4, 4);
    trim_line_terminator(&searcher(), buf, &mut line);
    assert_eq!((line.start(), line.end()), (4, 4));
}

#[test]
fn the_matches_in_one_line_of_a_buffer() {
    let buf = b"foo\nfoo bar foo\nfoo\n";
    let m = matcher("foo");
    let found = find_iter_at_in_context(&searcher(), &m, buf, Match::new(4, 16)).unwrap();
    assert_eq!(found, vec![Match::new(4, 7), Match::new(12, 15)]);
    let found = find_iter_at_in_context(&searcher(), &m, buf, Match::new(0, 4)).unwrap();
    assert_eq!(found, vec![Match::new(0, 3)]);
    let m = matcher("bar");
    let found = find_iter_at_in_context(&searcher(), &m, buf, Match::new(0, 4)).unwrap();
    assert!(found.is_empty());
    let mut builder = RegexMatcherBuilder::new();
    builder.line_terminator(Some(b'\n')).multi_line(true);
    let end = builder.build("$").unwrap();
    let found = find_iter_at_in_context(&searcher(), &end, buf, Match::new(4, 16)).unwrap();
    assert_eq!(found, vec![Match::new(15, 15)]);
}

#[test]
fn the_writer_counts_bytes_and_records_steps() {
    let mut wtr = CounterWriter::new(true);
    assert!(wtr.supports_color());
    assert_eq!((wtr.count(), wtr.total_count()), (0, 0));
    wtr.write_all(b"abc");
    wtr.set_color(&ColorSpec::new());
    wtr.write_all(b"de");
    wtr.reset();
    assert_eq!((wtr.count(), wtr.total_count()), (5, 5));
    wtr.reset_count();
    assert_eq!((wtr.count(), wtr.total_count()), (0, 5));
    wtr.write_all(b"");
    wtr.write_all(b"f");
    assert_eq!((wtr.count(), wtr.total_count()), (1, 6));
    assert_eq!(render(&wtr.take_ops()), "abc<>de</>f");
    assert!(wtr.take_ops().is_empty());
    assert_eq!((wtr.count(), wtr.total_count()), (1, 6));

    let mut plain = CounterWriter::new(false);
    assert!(!plain.supports_color());
    plain.set_color(&ColorSpec::new());
    plain.write_all(b"x");
    plain.reset();
    let ops = plain.take_ops();
    assert_eq!(ops.len(), 1);
    assert_eq!(render(&ops), "x");
}

#[test]
fn the_default_colours() {
    let specs = ColorSpecs::default();
    assert_eq!(specs.path().fg_color, Some(Color::Magenta));
    assert!(!specs.path().bold);
    assert_eq!(specs.line().fg_color, Some(Color::Green));
    assert_eq!(*specs.column(), ColorSpec::new());
    assert!(specs.column().is_none());
    assert_eq!(specs.matched().fg_color, Some(Color::Red));
    assert!(specs.matched().bold);
    assert!(!specs.matched().is_none());
    assert!(ColorSpec::default().is_none());
    assert!(ColorSpec::default().reset);
    let mut styled = ColorSpec::new();
    styled.underline = true;
    assert!(!styled.is_none());
}

#[test]
fn the_default_options_of_the_formatter() {
    let config = Config::default();
    assert!(!config.trim_ascii && config.path && config.heading && !config.column);
    assert_eq!(config.max_columns, None);
    assert_eq!(config.path_terminator, None);
    assert_eq!(config.separator_field_match, b":");
    let printer = StandardBuilder::new().build(true);
    assert_eq!(printer.options().separator_field_match, b":");
    assert!(printer.options().heading);
}

#[test]
fn stats_add_up() {
    let mut stats = Stats::new();
    assert_eq!((stats.matched_lines(), stats.matches()), (0, 0));
    stats.add_matched_lines(3);
    stats.add_matches(5);
    stats.add_matched_lines(4);
    stats.add_matches(0);
    assert_eq!((stats.matched_lines(), stats.matches()), (7, 5));
    assert_eq!(stats, stats.clone());
    assert_ne!(stats, Stats::default());
}

#[test]
fn a_sunk_line_keeps_what_it_was_given() {
    let empty = Sunk::empty();
    assert!(empty.bytes().is_empty() && empty.matches().is_empty());
    assert_eq!((empty.absolute_byte_offset(), empty.line_number()), (0, None));
    let mat = SinkMatch::new(LineTerminator::byte(b'\n'), b"ab\ncd\n", Match::new(3, 6), 13, Some(2));
    assert_eq!(mat.bytes(), b"cd\n");
    assert_eq!(mat.buffer(), b"ab\ncd\n");
    assert_eq!(mat.bytes_range_in_buffer(), 3..6);
    assert_eq!(mat.line_terminator(), LineTerminator::byte(b'\n'));
    let matches = [Match::new(0, 1)];
    let sunk = Sunk::from_sink_match(&mat, &matches);
    assert_eq!(sunk.bytes(), b"cd\n");
    assert_eq!(sunk.matches(), &matches);
    assert_eq!((sunk.absolute_byte_offset(), sunk.line_number()), (13, Some(2)));
}

#[test]
fn a_path_is_written_as_it_stands() {
    let path = PrinterPath::new(b"dir/file.txt".to_vec()).with_separator(Some(b'\\'));
    assert_eq!(path.as_bytes(), b"dir/file.txt");
}
