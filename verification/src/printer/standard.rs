//! The standard formatter: each matching line on a line of its own, behind
//! the path of its file and its line and column numbers.

use crate::matcher::{in_order, matches_from, ErrorText, LineTerminator, Match, Matcher};
use crate::printer::color::{ColorSpec, ColorSpecs};
use crate::printer::counter::{capped, shown, Cell, CounterWriter, WriteOp};
use crate::printer::util::{
    digits,
    find_iter_at_in_context,
    trim_ascii_prefix,
    trim_start,
    DecimalFormatter,
    Sunk,
};
use crate::searcher::lines::spec_without_terminator;
use crate::searcher::sink::{Answer, LineRecord, SearchError, Sink, SinkError, SinkMatch};
use crate::searcher::Searcher;
use vstd::prelude::*;
use vstd::slice::slice_subrange;
use vstd::string::StringSliceAdditionalSpecFns;

verus! {

/// The options of the formatter.
#[derive(Clone, Debug)]
pub struct Config {
    /// The colours of the output.
    pub colors: ColorSpecs,
    /// Whether white space at the start of a line is left out.
    pub trim_ascii: bool,
    /// The longest line that is written out, in bytes.
    pub max_columns: Option<u64>,
    /// Whether the path of the file is written.
    pub path: bool,
    /// Whether the path stands once above the lines of its file; it stands
    /// before each line otherwise.
    pub heading: bool,
    /// What ends a path, in place of the separator or the line terminator.
    pub path_terminator: Option<u8>,
    /// Whether the column of the first match is written.
    pub column: bool,
    /// What stands between the fields before a line.
    pub separator_field_match: Vec<u8>,
}

/// What is written in place of a line that is too long.
pub open spec fn omitted() -> Seq<u8> {
    "[Omitted long context line]".spec_bytes()
}

/// The bytes `bytes`, shown as `spec` says where colours are shown at
/// all.
pub open spec fn tinted(bytes: Seq<u8>, spec: ColorSpec, supports_color: bool) -> Seq<Cell> {
    shown(
        bytes,
        if supports_color {
            Some(spec)
        } else {
            None
        },
    )
}

/// Whether one of `matches` holds the offset `at`.
pub open spec fn covered(matches: Seq<Match>, at: int) -> bool {
    exists|k: int|
        0 <= k < matches.len() && (#[trigger] matches[k]).spec_start() <= at < matches[k].spec_end()
}

/// The bytes of `bytes` from `from` to `to`, those inside one of `matches`
/// shown as `spec` says and the others plainly.
pub open spec fn highlighted(
    bytes: Seq<u8>,
    from: int,
    to: int,
    matches: Seq<Match>,
    spec: ColorSpec,
) -> Seq<Cell> {
    Seq::new(
        (to - from) as nat,
        |i: int|
            (
                bytes[from + i],
                if covered(matches, from + i) {
                    Some(spec)
                } else {
                    None
                },
            ),
    )
}

/// What separates the next field from the one before it.
#[derive(Clone, Copy, Debug, PartialEq, Eq, Structural)]
pub enum PreludeSeparator {
    /// No field was written yet.
    Nothing,
    /// The field separator.
    FieldSeparator,
    /// The path terminator.
    PathTerminator,
}

impl Config {
    /// Whether a line of `len` bytes is too long to be written out.
    pub open spec fn exceeds(&self, len: nat) -> bool {
        self.max_columns matches Some(max) && len > max
    }

    /// What `separator` stands for.
    pub open spec fn separator(&self, separator: PreludeSeparator) -> Seq<Cell> {
        match separator {
            PreludeSeparator::Nothing => Seq::empty(),
            PreludeSeparator::FieldSeparator => shown(self.separator_field_match@, None),
            PreludeSeparator::PathTerminator => match self.path_terminator {
                Some(term) => shown(seq![term], None),
                None => Seq::empty(),
            },
        }
    }

    /// The separator behind a path.
    pub open spec fn after_path(&self) -> PreludeSeparator {
        if self.path_terminator is Some {
            PreludeSeparator::PathTerminator
        } else {
            PreludeSeparator::FieldSeparator
        }
    }

    /// The path before a line, where it does not stand above the lines, and
    /// the separator that the next field follows.
    pub open spec fn path_field(&self, path: Seq<u8>, supports_color: bool) -> (
        Seq<Cell>,
        PreludeSeparator,
    ) {
        if self.heading {
            (Seq::empty(), PreludeSeparator::Nothing)
        } else {
            (tinted(path, self.colors.spec_path(), supports_color), self.after_path())
        }
    }

    /// A number as a field behind the separator `before`, shown as `spec`
    /// says, and the separator that the next field follows; nothing where
    /// there is no number.
    pub open spec fn number_field(
        &self,
        before: PreludeSeparator,
        number: Option<u64>,
        spec: ColorSpec,
        supports_color: bool,
    ) -> (Seq<Cell>, PreludeSeparator) {
        match number {
            None => (Seq::empty(), before),
            Some(n) => (
                self.separator(before) + tinted(digits(n as nat), spec, supports_color),
                PreludeSeparator::FieldSeparator,
            ),
        }
    }

    /// What stands before a line: the path, the line number and the column,
    /// as far as each is asked for, with a separator between them and after
    /// them.
    pub open spec fn prelude(
        &self,
        path: Seq<u8>,
        line_number: Option<u64>,
        column: Option<u64>,
        supports_color: bool,
    ) -> Seq<Cell> {
        let first = self.path_field(path, supports_color);
        let second = self.number_field(
            first.1,
            line_number,
            self.colors.spec_line(),
            supports_color,
        );
        let third = self.number_field(
            second.1,
            if self.column {
                column
            } else {
                None
            },
            self.colors.spec_column(),
            supports_color,
        );
        first.0 + second.0 + third.0 + self.separator(third.1)
    }

    /// The path on a line of its own: the path and its terminator, or the
    /// line terminator where it has none.
    pub open spec fn path_line(
        &self,
        path: Seq<u8>,
        line_term: LineTerminator,
        supports_color: bool,
    ) -> Seq<Cell> {
        tinted(path, self.colors.spec_path(), supports_color) + match self.path_terminator {
            Some(term) => shown(seq![term], None),
            None => shown(line_term.spec_as_bytes(), None),
        }
    }

    /// What stands before the first line of a search: a line terminator
    /// where an earlier search wrote something, and the path on a line of
    /// its own where paths stand above the lines.
    pub open spec fn search_prelude(
        &self,
        path: Seq<u8>,
        line_term: LineTerminator,
        supports_color: bool,
        count: u64,
        counted_before: u64,
    ) -> Seq<Cell> {
        if count > 0 {
            Seq::empty()
        } else {
            (if counted_before > 0 {
                shown(line_term.spec_as_bytes(), None)
            } else {
                Seq::empty()
            }) + if self.heading {
                self.path_line(path, line_term, supports_color)
            } else {
                Seq::empty()
            }
        }
    }

    /// Where the line `bytes` begins for the output: behind its white space
    /// where that is left out.
    pub open spec fn line_start(&self, bytes: Seq<u8>, line_term: LineTerminator) -> int {
        if self.trim_ascii {
            trim_start(bytes, 0, bytes.len() as int, line_term)
        } else {
            0
        }
    }

    /// The line `bytes` without colours: from `line_start` on, with a line
    /// terminator where it has none; and for a line that is too long the
    /// words that say so, and a line terminator.
    pub open spec fn plain_line(&self, bytes: Seq<u8>, line_term: LineTerminator) -> Seq<Cell> {
        let line = bytes.skip(self.line_start(bytes, line_term));
        if self.exceeds(line.len()) {
            shown(omitted(), None) + shown(line_term.spec_as_bytes(), None)
        } else if line.len() > 0 && line.last() == line_term.spec_as_byte() {
            shown(line, None)
        } else {
            shown(line, None) + shown(line_term.spec_as_bytes(), None)
        }
    }

    /// The line `bytes` with its matches in colour: from `line_start` up to
    /// its terminator, and a line terminator; and for a line that is too long
    /// the words that say so, and a line terminator.
    pub open spec fn colored_line(
        &self,
        bytes: Seq<u8>,
        matches: Seq<Match>,
        line_term: LineTerminator,
    ) -> Seq<Cell> {
        let start = self.line_start(bytes, line_term);
        let end = start + spec_without_terminator(bytes.skip(start), line_term).len();
        if self.exceeds((bytes.len() - start) as nat) {
            shown(omitted(), None) + shown(line_term.spec_as_bytes(), None)
        } else {
            highlighted(bytes, start, end, matches, self.colors.spec_matched()) + shown(
                line_term.spec_as_bytes(),
                None,
            )
        }
    }

    /// The line `bytes` with the matches `matches`: in colour where colours
    /// are shown and matches have one, and plainly otherwise.
    pub open spec fn line(
        &self,
        bytes: Seq<u8>,
        matches: Seq<Match>,
        line_term: LineTerminator,
        supports_color: bool,
    ) -> Seq<Cell> {
        if !supports_color || self.colors.spec_matched().spec_is_none() {
            self.plain_line(bytes, line_term)
        } else {
            self.colored_line(bytes, matches, line_term)
        }
    }

    /// The column of the first of `matches`, counted from 1.
    pub open spec fn first_column(matches: Seq<Match>) -> Option<u64> {
        if matches.len() == 0 {
            None
        } else {
            Some(capped(matches[0].spec_start() + 1))
        }
    }

    /// All that is written for one matching line.
    pub open spec fn rendered(
        &self,
        path: Seq<u8>,
        bytes: Seq<u8>,
        line_number: Option<u64>,
        matches: Seq<Match>,
        line_term: LineTerminator,
        supports_color: bool,
        count: u64,
        counted_before: u64,
    ) -> Seq<Cell> {
        self.search_prelude(path, line_term, supports_color, count, counted_before)
            + self.prelude(path, line_number, Config::first_column(matches), supports_color)
            + if matches.len() == 0 {
            self.plain_line(bytes, line_term)
        } else {
            self.line(bytes, matches, line_term, supports_color)
        }
    }
}

/// Writes one matching line.
pub struct StandardImpl<'a> {
    searcher: &'a Searcher,
    config: &'a Config,
    path: &'a [u8],
    sunk: Sunk<'a>,
    /// Whether the colour of matches is set.
    in_color_match: bool,
}

impl<'a> StandardImpl<'a> {
    /// The options.
    pub closed spec fn spec_config(&self) -> Config {
        *self.config
    }

    /// The path of the file.
    pub closed spec fn spec_path(&self) -> Seq<u8> {
        self.path@
    }

    /// The line.
    pub closed spec fn sunk(&self) -> Sunk<'a> {
        self.sunk
    }

    /// The terminator of the search.
    pub closed spec fn line_term(&self) -> LineTerminator {
        self.searcher.spec_line_terminator()
    }

    /// Whether the colour of matches is set.
    pub closed spec fn in_color(&self) -> bool {
        self.in_color_match
    }

    /// Whether `self` and `wtr` agree on the colour that is set: that of
    /// matches, or none.
    pub open spec fn agrees(&self, wtr: &CounterWriter) -> bool {
        wtr.color() == if self.in_color() {
            Some(self.spec_config().colors.spec_matched())
        } else {
            None
        }
    }

    /// A formatter for a line without bytes.
    pub fn new(searcher: &'a Searcher, config: &'a Config, path: &'a [u8]) -> (made: StandardImpl<
        'a,
    >)
        ensures
            made.spec_config() == *config,
            made.spec_path() == path@,
            made.line_term() == searcher.spec_line_terminator(),
            made.sunk().spec_bytes() == Seq::<u8>::empty(),
            made.sunk().spec_matches() == Seq::<Match>::empty(),
            made.sunk().spec_line_number() is None,
            !made.in_color(),
    {
        StandardImpl { searcher, config, path, sunk: Sunk::empty(), in_color_match: false }
    }

    /// A formatter for the line `sunk`.
    pub fn from_match(
        searcher: &'a Searcher,
        config: &'a Config,
        path: &'a [u8],
        sunk: Sunk<'a>,
    ) -> (made: StandardImpl<'a>)
        ensures
            made.spec_config() == *config,
            made.spec_path() == path@,
            made.line_term() == searcher.spec_line_terminator(),
            made.sunk() == sunk,
            !made.in_color(),
    {
        StandardImpl { searcher, config, path, sunk, in_color_match: false }
    }

    /// Writes the line with all that stands before it.
    pub fn sink(&mut self, wtr: &mut CounterWriter)
        requires
            old(wtr).color() is None,
            !old(self).in_color(),
            in_order(
                old(self).sunk().spec_matches(),
                0,
                old(self).sunk().spec_bytes().len() as int,
                old(self).sunk().spec_bytes().len() as int + 1,
            ),
        ensures
            final(wtr).color() is None,
            final(wtr).spec_supports_color() == old(wtr).spec_supports_color(),
            final(wtr).counted_before() == old(wtr).counted_before(),
            !final(self).in_color(),
            final(wtr).cells() == old(wtr).cells() + old(self).spec_config().rendered(
                old(self).spec_path(),
                old(self).sunk().spec_bytes(),
                old(self).sunk().spec_line_number(),
                old(self).sunk().spec_matches(),
                old(self).line_term(),
                old(wtr).spec_supports_color(),
                old(wtr).spec_count(),
                old(wtr).counted_before(),
            ),
    {
        let ghost config = self.spec_config();
        let ghost supports = wtr.spec_supports_color();
        let ghost a = config.search_prelude(
            self.spec_path(),
            self.line_term(),
            supports,
            wtr.spec_count(),
            wtr.counted_before(),
        );
        let ghost b = config.prelude(
            self.spec_path(),
            self.sunk().spec_line_number(),
            Config::first_column(self.sunk().spec_matches()),
            supports,
        );
        let ghost bytes = self.sunk().spec_bytes();
        let ghost matches = self.sunk().spec_matches();
        let ghost line_term = self.line_term();
        self.write_search_prelude(wtr);
        if self.sunk.matches().len() == 0 {
            self.sink_fast(wtr);
            proof {
                let c = config.plain_line(bytes, line_term);
                assert((old(wtr).cells() + a) + b + c =~= old(wtr).cells() + (a + b + c));
            }
        } else {
            self.sink_slow(wtr);
            proof {
                let c = config.line(bytes, matches, line_term, supports);
                assert((old(wtr).cells() + a) + b + c =~= old(wtr).cells() + (a + b + c));
            }
        }
    }

    /// Writes a line without matches to show.
    fn sink_fast(&mut self, wtr: &mut CounterWriter)
        requires
            old(wtr).color() is None,
            !old(self).in_color(),
            old(self).sunk().spec_matches().len() == 0,
        ensures
            final(wtr).color() is None,
            final(wtr).spec_supports_color() == old(wtr).spec_supports_color(),
            final(wtr).counted_before() == old(wtr).counted_before(),
            *final(self) == *old(self),
            final(wtr).cells() == old(wtr).cells() + old(self).spec_config().prelude(
                old(self).spec_path(),
                old(self).sunk().spec_line_number(),
                None,
                old(wtr).spec_supports_color(),
            ) + old(self).spec_config().plain_line(
                old(self).sunk().spec_bytes(),
                old(self).line_term(),
            ),
    {
        self.write_prelude(wtr, self.sunk.absolute_byte_offset(), self.sunk.line_number(), None);
        self.write_line(wtr, self.sunk.bytes());
    }

    /// Writes a line with its matches.
    fn sink_slow(&mut self, wtr: &mut CounterWriter)
        requires
            old(wtr).color() is None,
            !old(self).in_color(),
            old(self).sunk().spec_matches().len() > 0,
            in_order(
                old(self).sunk().spec_matches(),
                0,
                old(self).sunk().spec_bytes().len() as int,
                old(self).sunk().spec_bytes().len() as int + 1,
            ),
        ensures
            final(wtr).color() is None,
            final(wtr).spec_supports_color() == old(wtr).spec_supports_color(),
            final(wtr).counted_before() == old(wtr).counted_before(),
            !final(self).in_color(),
            final(wtr).cells() == old(wtr).cells() + old(self).spec_config().prelude(
                old(self).spec_path(),
                old(self).sunk().spec_line_number(),
                Config::first_column(old(self).sunk().spec_matches()),
                old(wtr).spec_supports_color(),
            ) + old(self).spec_config().line(
                old(self).sunk().spec_bytes(),
                old(self).sunk().spec_matches(),
                old(self).line_term(),
                old(wtr).spec_supports_color(),
            ),
    {
        let first = self.sunk.matches()[0].start();
        let column = (first as u64).saturating_add(1);
        self.write_prelude(
            wtr,
            self.sunk.absolute_byte_offset(),
            self.sunk.line_number(),
            Some(column),
        );
        self.write_colored_line(wtr, self.sunk.matches(), self.sunk.bytes());
    }

    /// Writes what stands before a line.
    fn write_prelude(
        &self,
        wtr: &mut CounterWriter,
        absolute_byte_offset: u64,
        line_number: Option<u64>,
        column: Option<u64>,
    )
        requires
            old(wtr).color() is None,
        ensures
            final(wtr).color() is None,
            final(wtr).spec_supports_color() == old(wtr).spec_supports_color(),
            final(wtr).counted_before() == old(wtr).counted_before(),
            final(wtr).cells() == old(wtr).cells() + self.spec_config().prelude(
                self.spec_path(),
                line_number,
                column,
                old(wtr).spec_supports_color(),
            ),
    {
        let mut prelude = PreludeWriter::new(self);
        prelude.start();
        prelude.write_path(wtr);
        prelude.write_line_number(wtr, line_number);
        prelude.write_column_number(wtr, column);
        prelude.end(wtr);
        proof {
            let config = self.spec_config();
            let supports = old(wtr).spec_supports_color();
            let first = config.path_field(self.spec_path(), supports);
            let second = config.number_field(
                first.1,
                line_number,
                config.colors.spec_line(),
                supports,
            );
            let third = config.number_field(
                second.1,
                if config.column {
                    column
                } else {
                    None
                },
                config.colors.spec_column(),
                supports,
            );
            assert(wtr.cells() =~= old(wtr).cells() + (first.0 + second.0 + third.0
                + config.separator(third.1)));
        }
    }

    /// Writes what stands before the first line of a search.
    fn write_search_prelude(&self, wtr: &mut CounterWriter)
        requires
            old(wtr).color() is None,
        ensures
            final(wtr).color() is None,
            final(wtr).spec_supports_color() == old(wtr).spec_supports_color(),
            final(wtr).counted_before() == old(wtr).counted_before(),
            final(wtr).cells() == old(wtr).cells() + self.spec_config().search_prelude(
                self.spec_path(),
                self.line_term(),
                old(wtr).spec_supports_color(),
                old(wtr).spec_count(),
                old(wtr).counted_before(),
            ),
    {
        let this_search_written = wtr.count() > 0;
        if this_search_written {
            assert(wtr.cells() + Seq::<Cell>::empty() =~= wtr.cells());
            return ;
        }
        let ever_written = wtr.total_count() > 0;
        let ghost mut first: Seq<Cell> = Seq::empty();
        if ever_written {
            self.write_line_term(wtr);
            proof {
                first = shown(self.line_term().spec_as_bytes(), None);
            }
        }
        let ghost mut second: Seq<Cell> = Seq::empty();
        if self.config.heading {
            self.write_path_line(wtr);
            proof {
                second = self.spec_config().path_line(
                    self.spec_path(),
                    self.line_term(),
                    old(wtr).spec_supports_color(),
                );
            }
        }
        assert(wtr.cells() =~= old(wtr).cells() + (first + second));
    }

    /// Writes the path on a line of its own.
    fn write_path_line(&self, wtr: &mut CounterWriter)
        requires
            old(wtr).color() is None,
        ensures
            final(wtr).color() is None,
            final(wtr).spec_supports_color() == old(wtr).spec_supports_color(),
            final(wtr).counted_before() == old(wtr).counted_before(),
            final(wtr).cells() == old(wtr).cells() + self.spec_config().path_line(
                self.spec_path(),
                self.line_term(),
                old(wtr).spec_supports_color(),
            ),
    {
        self.write_path(wtr, self.path());
        if let Some(term) = self.config.path_terminator {
            let one = [term];
            assert(one@ =~= seq![term]);
            self.write(wtr, one.as_slice());
        } else {
            self.write_line_term(wtr);
        }
        proof {
            let a = tinted(
                self.spec_path(),
                self.spec_config().colors.spec_path(),
                old(wtr).spec_supports_color(),
            );
            let b = wtr.cells().skip((old(wtr).cells() + a).len() as int);
            assert(wtr.cells() =~= old(wtr).cells() + (a + b));
        }
    }

    /// Writes `path` in the colour of paths.
    fn write_path(&self, wtr: &mut CounterWriter, path: &[u8])
        requires
            old(wtr).color() is None,
        ensures
            final(wtr).color() is None,
            final(wtr).spec_supports_color() == old(wtr).spec_supports_color(),
            final(wtr).counted_before() == old(wtr).counted_before(),
            final(wtr).cells() == old(wtr).cells() + tinted(
                path@,
                self.spec_config().colors.spec_path(),
                old(wtr).spec_supports_color(),
            ),
    {
        self.write_spec(wtr, self.config.colors.path(), path);
    }

    /// The path of the file.
    fn path(&self) -> (path: &'a [u8])
        ensures
            path@ == self.spec_path(),
    {
        self.path
    }

    /// Writes `buf` as `spec` says.
    fn write_spec(&self, wtr: &mut CounterWriter, spec: &ColorSpec, buf: &[u8])
        requires
            old(wtr).color() is None,
        ensures
            final(wtr).color() is None,
            final(wtr).spec_supports_color() == old(wtr).spec_supports_color(),
            final(wtr).counted_before() == old(wtr).counted_before(),
            final(wtr).cells() == old(wtr).cells() + tinted(
                buf@,
                *spec,
                old(wtr).spec_supports_color(),
            ),
    {
        wtr.set_color(spec);
        wtr.write_all(buf);
        wtr.reset();
    }

    /// What stands between the fields before a line.
    fn separator_field(&self) -> (separator: &'a [u8])
        ensures
            separator@ == self.spec_config().separator_field_match@,
    {
        self.config.separator_field_match.as_slice()
    }

    /// Writes the line `bytes` with the matches `matches` in it.
    pub fn write_colored_line(&mut self, wtr: &mut CounterWriter, matches: &[Match], bytes: &[u8])
        requires
            old(wtr).color() is None,
            !old(self).in_color(),
            in_order(matches@, 0, bytes@.len() as int, bytes@.len() as int + 1),
        ensures
            final(wtr).color() is None,
            final(wtr).spec_supports_color() == old(wtr).spec_supports_color(),
            final(wtr).counted_before() == old(wtr).counted_before(),
            !final(self).in_color(),
            final(self).spec_config() == old(self).spec_config(),
            final(wtr).cells() == old(wtr).cells() + old(self).spec_config().line(
                bytes@,
                matches@,
                old(self).line_term(),
                old(wtr).spec_supports_color(),
            ),
    {
        let spec = self.config.colors.matched();
        if !wtr.supports_color() || spec.is_none() {
            self.write_line(wtr, bytes);
            return ;
        }
        let mut line = Match::new(0, bytes.len());
        self.trim_ascii_prefix(bytes, &mut line);
        if self.exceeds_max_columns(line.len()) {
            self.write(wtr, "[Omitted long context line]".as_bytes());
            self.write_line_term(wtr);
            proof {
                let a = shown(omitted(), None);
                let b = shown(self.line_term().spec_as_bytes(), None);
                assert(wtr.cells() =~= old(wtr).cells() + (a + b));
            }
        } else {
            crate::printer::util::trim_line_terminator(self.searcher, bytes, &mut line);
            proof {
                let start = line.spec_start() as int;
                assert(bytes@.subrange(start, bytes@.len() as int) =~= bytes@.skip(start));
            }
            self.write_colored_matches(wtr, bytes, line, matches);
            self.write_line_term(wtr);
            proof {
                let a = highlighted(
                    bytes@,
                    line.spec_start() as int,
                    line.spec_end() as int,
                    matches@,
                    self.spec_config().colors.spec_matched(),
                );
                let b = shown(self.line_term().spec_as_bytes(), None);
                assert(wtr.cells() =~= old(wtr).cells() + (a + b));
            }
        }
    }

    /// The options.
    fn config(&self) -> (config: &'a Config)
        ensures
            *config == self.spec_config(),
    {
        self.config
    }

    /// Writes the line `line` without colours.
    fn write_line(&self, wtr: &mut CounterWriter, line: &[u8])
        requires
            old(wtr).color() is None,
        ensures
            final(wtr).color() is None,
            final(wtr).spec_supports_color() == old(wtr).spec_supports_color(),
            final(wtr).counted_before() == old(wtr).counted_before(),
            final(wtr).cells() == old(wtr).cells() + self.spec_config().plain_line(
                line@,
                self.line_term(),
            ),
    {
        let whole = line;
        let line = if !self.config.trim_ascii {
            assert(whole@.skip(0) =~= whole@);
            line
        } else {
            let full_range = Match::new(0, line.len());
            let range = trim_ascii_prefix(self.searcher.line_terminator(), line, full_range);
            assert(whole@.subrange(range.spec_start() as int, whole@.len() as int) =~= whole@.skip(
                range.spec_start() as int,
            ));
            range.slice(line)
        };
        if self.exceeds_max_columns(line.len()) {
            self.write(wtr, "[Omitted long context line]".as_bytes());
            self.write_line_term(wtr);
            proof {
                let a = shown(omitted(), None);
                let b = shown(self.line_term().spec_as_bytes(), None);
                assert(wtr.cells() =~= old(wtr).cells() + (a + b));
            }
        } else {
            self.write(wtr, line);
            if !self.has_line_terminator(line) {
                self.write_line_term(wtr);
                proof {
                    let a = shown(line@, None);
                    let b = shown(self.line_term().spec_as_bytes(), None);
                    assert(wtr.cells() =~= old(wtr).cells() + (a + b));
                }
            }
        }
    }

    /// Whether a line of `len` bytes is too long to be written out.
    fn exceeds_max_columns(&self, len: usize) -> (yes: bool)
        ensures
            yes == self.spec_config().exceeds(len as nat),
    {
        match self.config.max_columns {
            None => false,
            Some(max) => len as u64 > max,
        }
    }

    /// Whether `buf` ends in the line terminator.
    fn has_line_terminator(&self, buf: &[u8]) -> (yes: bool)
        ensures
            yes == (buf@.len() > 0 && buf@.last() == self.line_term().spec_as_byte()),
    {
        self.searcher.line_terminator().is_suffix(buf)
    }

    /// Writes the range `line` of `bytes`, the bytes inside one of
    /// `matches` in the colour of matches and the others plainly.
    fn write_colored_matches(
        &mut self,
        wtr: &mut CounterWriter,
        bytes: &[u8],
        line: Match,
        matches: &[Match],
    )
        requires
            old(wtr).color() is None,
            old(wtr).spec_supports_color(),
            !old(self).in_color(),
            line.spec_end() <= bytes@.len(),
            in_order(matches@, 0, bytes@.len() as int, bytes@.len() as int + 1),
        ensures
            final(wtr).color() is None,
            final(wtr).spec_supports_color() == old(wtr).spec_supports_color(),
            final(wtr).counted_before() == old(wtr).counted_before(),
            !final(self).in_color(),
            final(self).spec_config() == old(self).spec_config(),
            final(self).line_term() == old(self).line_term(),
            final(wtr).cells() == old(wtr).cells() + highlighted(
                bytes@,
                line.spec_start() as int,
                line.spec_end() as int,
                matches@,
                old(self).spec_config().colors.spec_matched(),
            ),
    {
        let ghost spec = self.spec_config().colors.spec_matched();
        let ghost from = line.spec_start() as int;
        let ghost to = line.spec_end() as int;
        let mut line = line;
        let _ = line.start();
        if matches.len() == 0 {
            self.write(wtr, line.slice(bytes));
            assert(wtr.cells() =~= old(wtr).cells() + highlighted(
                bytes@,
                from,
                line.spec_end() as int,
                matches@,
                spec,
            ));
            return ;
        }
        let mut match_index: usize = 0;
        assert(wtr.cells() =~= old(wtr).cells() + highlighted(bytes@, from, from, matches@, spec));
        while !line.is_empty()
            invariant
                from <= line.spec_start() <= line.spec_end() <= bytes@.len(),
                line.spec_end() == to,
                match_index < matches@.len(),
                in_order(matches@, 0, bytes@.len() as int, bytes@.len() as int + 1),
                forall|k: int|
                    0 <= k < match_index ==> (#[trigger] matches@[k]).spec_end()
                        <= line.spec_start(),
                self.spec_config() == old(self).spec_config(),
                self.line_term() == old(self).line_term(),
                spec == self.spec_config().colors.spec_matched(),
                self.agrees(wtr),
                wtr.spec_supports_color(),
                wtr.counted_before() == old(wtr).counted_before(),
                wtr.cells() == old(wtr).cells() + highlighted(
                    bytes@,
                    from,
                    line.spec_start() as int,
                    matches@,
                    spec,
                ),
            ensures
                line.spec_start() == to,
            decreases line.spec_end() - line.spec_start(), matches@.len() - match_index,
        {
            let ghost at = line.spec_start() as int;
            let ghost before = wtr.cells();
            if matches[match_index].end() <= line.start() {
                if match_index + 1 < matches.len() {
                    match_index += 1;
                    continue ;
                } else {
                    self.end_color_match(wtr);
                    self.write(wtr, line.slice(bytes));
                    proof {
                        let to = line.spec_end() as int;
                        assert forall|p: int| at <= p < to implies !covered(matches@, p) by {
                            if covered(matches@, p) {
                                let k = choose|k: int|
                                    0 <= k < matches@.len() && (#[trigger] matches@[k]).spec_start()
                                        <= p < matches@[k].spec_end();
                                assert(matches@[k].spec_end() <= at);
                            }
                        }
                        assert(wtr.cells() =~= old(wtr).cells() + highlighted(
                            bytes@,
                            from,
                            to,
                            matches@,
                            spec,
                        ));
                    }
                    line = line.with_start(line.end());
                    break ;
                }
            }
            let m = matches[match_index];
            if line.start() < m.start() {
                let upto = if line.end() < m.start() {
                    line.end()
                } else {
                    m.start()
                };
                self.end_color_match(wtr);
                self.write(wtr, line.with_end(upto).slice(bytes));
                proof {
                    assert forall|p: int| at <= p < upto implies !covered(matches@, p) by {
                        if covered(matches@, p) {
                            let k = choose|k: int|
                                0 <= k < matches@.len() && (#[trigger] matches@[k]).spec_start()
                                    <= p < matches@[k].spec_end();
                            if k < match_index {
                                assert(matches@[k].spec_end() <= at);
                            } else if k > match_index {
                                assert(matches@[match_index as int].spec_end()
                                    <= matches@[k].spec_start());
                            }
                        }
                    }
                    assert(wtr.cells() =~= old(wtr).cells() + highlighted(
                        bytes@,
                        from,
                        upto as int,
                        matches@,
                        spec,
                    ));
                }
                line = line.with_start(upto);
            } else {
                let upto = if line.end() < m.end() {
                    line.end()
                } else {
                    m.end()
                };
                self.start_color_match(wtr);
                self.write(wtr, line.with_end(upto).slice(bytes));
                proof {
                    assert forall|p: int| at <= p < upto implies covered(matches@, p) by {
                        assert(matches@[match_index as int].spec_start() <= p
                            < matches@[match_index as int].spec_end());
                    }
                    assert(wtr.cells() =~= old(wtr).cells() + highlighted(
                        bytes@,
                        from,
                        upto as int,
                        matches@,
                        spec,
                    ));
                }
                line = line.with_start(upto);
            }
        }
        self.end_color_match(wtr);
    }

    /// Writes a line terminator.
    fn write_line_term(&self, wtr: &mut CounterWriter)
        ensures
            final(wtr).color() == old(wtr).color(),
            final(wtr).spec_supports_color() == old(wtr).spec_supports_color(),
            final(wtr).counted_before() == old(wtr).counted_before(),
            final(wtr).cells() == old(wtr).cells() + shown(
                self.line_term().spec_as_bytes(),
                old(wtr).color(),
            ),
    {
        let line_term = self.searcher.line_terminator();
        self.write(wtr, line_term.as_bytes());
    }

    /// Writes `buf`.
    fn write(&self, wtr: &mut CounterWriter, buf: &[u8])
        ensures
            final(wtr).color() == old(wtr).color(),
            final(wtr).spec_supports_color() == old(wtr).spec_supports_color(),
            final(wtr).counted_before() == old(wtr).counted_before(),
            final(wtr).spec_count() == capped(old(wtr).spec_count() + buf@.len()),
            final(wtr).cells() == old(wtr).cells() + shown(buf@, old(wtr).color()),
    {
        wtr.write_all(buf);
    }

    /// Sets the colour of matches, unless it is set.
    fn start_color_match(&mut self, wtr: &mut CounterWriter)
        requires
            old(self).agrees(old(wtr)),
            old(wtr).spec_supports_color(),
        ensures
            final(self).agrees(final(wtr)),
            final(self).in_color(),
            final(self).spec_config() == old(self).spec_config(),
            final(self).line_term() == old(self).line_term(),
            final(wtr).cells() == old(wtr).cells(),
            final(wtr).spec_supports_color() == old(wtr).spec_supports_color(),
            final(wtr).counted_before() == old(wtr).counted_before(),
    {
        if self.in_color_match {
            return ;
        }
        wtr.set_color(self.config.colors.matched());
        self.in_color_match = true;
    }

    /// Takes the colour of matches back, if it is set.
    fn end_color_match(&mut self, wtr: &mut CounterWriter)
        requires
            old(self).agrees(old(wtr)),
            old(wtr).spec_supports_color(),
        ensures
            final(self).agrees(final(wtr)),
            !final(self).in_color(),
            final(self).spec_config() == old(self).spec_config(),
            final(self).line_term() == old(self).line_term(),
            final(wtr).cells() == old(wtr).cells(),
            final(wtr).spec_supports_color() == old(wtr).spec_supports_color(),
            final(wtr).counted_before() == old(wtr).counted_before(),
    {
        if !self.in_color_match {
            return ;
        }
        wtr.reset();
        self.in_color_match = false;
    }

    /// Takes the white space off the start of the range `range` of `slice`,
    /// where that is asked for.
    fn trim_ascii_prefix(&self, slice: &[u8], range: &mut Match)
        requires
            old(range).spec_start() == 0,
            old(range).spec_end() == slice@.len(),
        ensures
            final(range).spec_start() == self.spec_config().line_start(slice@, self.line_term()),
            final(range).spec_end() == slice@.len(),
            final(range).spec_start() <= final(range).spec_end(),
    {
        if !self.config.trim_ascii {
            return ;
        }
        *range = trim_ascii_prefix(self.searcher.line_terminator(), slice, *range);
    }
}

/// Writes the fields before a line, each behind its separator.
pub struct PreludeWriter<'a> {
    std: &'a StandardImpl<'a>,
    next_separator: PreludeSeparator,
    field_separator: &'a [u8],
}

impl<'a> PreludeWriter<'a> {
    /// The separator that the next field follows.
    pub closed spec fn next(&self) -> PreludeSeparator {
        self.next_separator
    }

    /// The formatter of the line.
    pub closed spec fn formatter(&self) -> &'a StandardImpl<'a> {
        self.std
    }

    /// The field separator is that of the options.
    pub closed spec fn wf(&self) -> bool {
        self.field_separator@ == self.std.spec_config().separator_field_match@
    }

    fn new(std: &'a StandardImpl<'a>) -> (prelude: PreludeWriter<'a>)
        ensures
            prelude.wf(),
            prelude.formatter() == std,
            prelude.next() == PreludeSeparator::Nothing,
    {
        PreludeWriter {
            std,
            next_separator: PreludeSeparator::Nothing,
            field_separator: std.separator_field(),
        }
    }

    fn start(&mut self)
        ensures
            *final(self) == *old(self),
    {
    }

    /// Writes the path, where it stands before each line.
    fn write_path(&mut self, wtr: &mut CounterWriter)
        requires
            old(self).wf(),
            old(self).next() == PreludeSeparator::Nothing,
            old(wtr).color() is None,
        ensures
            final(self).wf(),
            final(self).formatter() == old(self).formatter(),
            final(wtr).color() is None,
            final(wtr).spec_supports_color() == old(wtr).spec_supports_color(),
            final(wtr).counted_before() == old(wtr).counted_before(),
            ({
                let field = old(self).formatter().spec_config().path_field(
                    old(self).formatter().spec_path(),
                    old(wtr).spec_supports_color(),
                );
                final(wtr).cells() == old(wtr).cells() + field.0 && final(self).next() == field.1
            }),
    {
        if self.config().heading {
            assert(wtr.cells() + Seq::<Cell>::empty() =~= wtr.cells());
            return ;
        }
        let path = self.std.path();
        self.write_separator(wtr);
        self.std.write_path(wtr, path);
        self.next_separator = if self.config().path_terminator.is_some() {
            PreludeSeparator::PathTerminator
        } else {
            PreludeSeparator::FieldSeparator
        };
        proof {
            let field = tinted(
                self.std.spec_path(),
                self.std.spec_config().colors.spec_path(),
                old(wtr).spec_supports_color(),
            );
            assert(wtr.cells() =~= old(wtr).cells() + field);
        }
    }

    /// Writes the line number, where there is one.
    fn write_line_number(&mut self, wtr: &mut CounterWriter, line: Option<u64>)
        requires
            old(self).wf(),
            old(wtr).color() is None,
        ensures
            final(self).wf(),
            final(self).formatter() == old(self).formatter(),
            final(wtr).color() is None,
            final(wtr).spec_supports_color() == old(wtr).spec_supports_color(),
            final(wtr).counted_before() == old(wtr).counted_before(),
            ({
                let field = old(self).formatter().spec_config().number_field(
                    old(self).next(),
                    line,
                    old(self).formatter().spec_config().colors.spec_line(),
                    old(wtr).spec_supports_color(),
                );
                final(wtr).cells() == old(wtr).cells() + field.0 && final(self).next() == field.1
            }),
    {
        let line_number = match line {
            None => {
                assert(wtr.cells() + Seq::<Cell>::empty() =~= wtr.cells());
                return ;
            },
            Some(line_number) => line_number,
        };
        let ghost separator = self.std.spec_config().separator(self.next());
        self.write_separator(wtr);
        let n = DecimalFormatter::new(line_number);
        self.std.write_spec(wtr, self.config().colors.line(), n.as_bytes());
        self.next_separator = PreludeSeparator::FieldSeparator;
        proof {
            let number = tinted(
                digits(line_number as nat),
                self.std.spec_config().colors.spec_line(),
                old(wtr).spec_supports_color(),
            );
            assert(wtr.cells() =~= old(wtr).cells() + (separator + number));
        }
    }

    /// Writes the column, where columns are asked for and there is one.
    fn write_column_number(&mut self, wtr: &mut CounterWriter, column: Option<u64>)
        requires
            old(self).wf(),
            old(wtr).color() is None,
        ensures
            final(self).wf(),
            final(self).formatter() == old(self).formatter(),
            final(wtr).color() is None,
            final(wtr).spec_supports_color() == old(wtr).spec_supports_color(),
            final(wtr).counted_before() == old(wtr).counted_before(),
            ({
                let field = old(self).formatter().spec_config().number_field(
                    old(self).next(),
                    if old(self).formatter().spec_config().column {
                        column
                    } else {
                        None
                    },
                    old(self).formatter().spec_config().colors.spec_column(),
                    old(wtr).spec_supports_color(),
                );
                final(wtr).cells() == old(wtr).cells() + field.0 && final(self).next() == field.1
            }),
    {
        if !self.config().column {
            assert(wtr.cells() + Seq::<Cell>::empty() =~= wtr.cells());
            return ;
        }
        let column_number = match column {
            None => {
                assert(wtr.cells() + Seq::<Cell>::empty() =~= wtr.cells());
                return ;
            },
            Some(column_number) => column_number,
        };
        let ghost separator = self.std.spec_config().separator(self.next());
        self.write_separator(wtr);
        let n = DecimalFormatter::new(column_number);
        self.std.write_spec(wtr, self.config().colors.column(), n.as_bytes());
        self.next_separator = PreludeSeparator::FieldSeparator;
        proof {
            let number = tinted(
                digits(column_number as nat),
                self.std.spec_config().colors.spec_column(),
                old(wtr).spec_supports_color(),
            );
            assert(wtr.cells() =~= old(wtr).cells() + (separator + number));
        }
    }

    /// Writes the separator behind the last field.
    fn end(&mut self, wtr: &mut CounterWriter)
        requires
            old(self).wf(),
            old(wtr).color() is None,
        ensures
            final(wtr).color() is None,
            final(wtr).spec_supports_color() == old(wtr).spec_supports_color(),
            final(wtr).counted_before() == old(wtr).counted_before(),
            final(wtr).cells() == old(wtr).cells() + old(self).formatter().spec_config().separator(
                old(self).next(),
            ),
    {
        self.write_separator(wtr)
    }

    /// Writes the separator that the next field follows, once.
    fn write_separator(&mut self, wtr: &mut CounterWriter)
        requires
            old(self).wf(),
            old(wtr).color() is None,
        ensures
            final(self).wf(),
            final(self).formatter() == old(self).formatter(),
            final(self).next() == PreludeSeparator::Nothing,
            final(wtr).color() is None,
            final(wtr).spec_supports_color() == old(wtr).spec_supports_color(),
            final(wtr).counted_before() == old(wtr).counted_before(),
            final(wtr).cells() == old(wtr).cells() + old(self).formatter().spec_config().separator(
                old(self).next(),
            ),
    {
        match self.next_separator {
            PreludeSeparator::Nothing => {
                assert(wtr.cells() + Seq::<Cell>::empty() =~= wtr.cells());
            },
            PreludeSeparator::FieldSeparator => {
                self.std.write(wtr, self.field_separator);
            },
            PreludeSeparator::PathTerminator => {
                if let Some(term) = self.config().path_terminator {
                    let one = [term];
                    assert(one@ =~= seq![term]);
                    self.std.write(wtr, one.as_slice());
                } else {
                    assert(wtr.cells() + Seq::<Cell>::empty() =~= wtr.cells());
                }
            },
        }
        self.next_separator = PreludeSeparator::Nothing;
    }

    fn config(&self) -> (config: &'a Config)
        ensures
            *config == self.formatter().spec_config(),
    {
        self.std.config()
    }
}

impl Config {
    /// The options that nobody changed: paths above the lines in the default
    /// colours, no columns, `:` between the fields, and lines as they are.
    pub open spec fn is_default(&self) -> bool {
        &&& !self.trim_ascii
        &&& self.max_columns is None
        &&& self.path
        &&& self.heading
        &&& self.path_terminator is None
        &&& !self.column
        &&& self.separator_field_match@ == seq![0x3Au8]
    }

    /// Whether the formatter has to know where in a line the matches lie:
    /// for the column, and for their colour where colours are shown.
    pub open spec fn spec_needs_matches(&self, supports_color: bool) -> bool {
        self.column || (supports_color && !self.colors.spec_matched().spec_is_none())
    }

    /// Whether `other` holds the same options.
    pub open spec fn same(&self, other: Config) -> bool {
        &&& self.colors == other.colors
        &&& self.trim_ascii == other.trim_ascii
        &&& self.max_columns == other.max_columns
        &&& self.path == other.path
        &&& self.heading == other.heading
        &&& self.path_terminator == other.path_terminator
        &&& self.column == other.column
        &&& self.separator_field_match@ == other.separator_field_match@
    }

    fn copy(&self) -> (copy: Config)
        ensures
            self.same(copy),
    {
        let mut separator: Vec<u8> = Vec::new();
        let mut i: usize = 0;
        while i < self.separator_field_match.len()
            invariant
                i <= self.separator_field_match.len(),
                separator@ == self.separator_field_match@.take(i as int),
            decreases self.separator_field_match.len() - i,
        {
            separator.push(self.separator_field_match[i]);
            i += 1;
            assert(self.separator_field_match@.take(i as int) =~= self.separator_field_match@.take(
                i - 1,
            ).push(self.separator_field_match@[i - 1]));
        }
        assert(self.separator_field_match@.take(self.separator_field_match@.len() as int)
            =~= self.separator_field_match@);
        Config {
            colors: self.colors,
            trim_ascii: self.trim_ascii,
            max_columns: self.max_columns,
            path: self.path,
            heading: self.heading,
            path_terminator: self.path_terminator,
            column: self.column,
            separator_field_match: separator,
        }
    }
}

impl Default for Config {
    fn default() -> (config: Config)
        ensures
            config.is_default(),
    {
        let mut separator: Vec<u8> = Vec::new();
        separator.push(0x3Au8);
        assert(separator@ =~= seq![0x3Au8]);
        Config {
            colors: ColorSpecs::default(),
            trim_ascii: false,
            max_columns: None,
            path: true,
            heading: true,
            path_terminator: None,
            column: false,
            separator_field_match: separator,
        }
    }
}

/// Builds a `Standard`.
#[derive(Clone, Debug)]
pub struct StandardBuilder {
    config: Config,
}

impl StandardBuilder {
    /// The options that `build` will use.
    pub closed spec fn config(&self) -> Config {
        self.config
    }

    /// A builder with the options that nobody changed.
    pub fn new() -> (builder: StandardBuilder)
        ensures
            builder.config().is_default(),
    {
        StandardBuilder { config: Config::default() }
    }

    /// A formatter for a writer that shows colours or does not, as
    /// `supports_color` says.
    pub fn build(&self, supports_color: bool) -> (printer: Standard)
        ensures
            self.config().same(printer.config()),
            printer.writer().spec_supports_color() == supports_color,
            printer.writer().cells() == Seq::<Cell>::empty(),
            printer.writer().color() is None,
            printer.writer().spec_count() == 0,
            printer.writer().counted_before() == 0,
    {
        let printer = Standard {
            config: self.config.copy(),
            wtr: CounterWriter::new(supports_color),
            matches: Vec::new(),
        };
        printer
    }

    /// The colours of the output.
    pub fn color_specs(&mut self, specs: ColorSpecs) -> (builder: &mut StandardBuilder)
        ensures
            builder.config() == (Config { colors: specs, ..old(self).config() }),
            *final(self) == *final(builder),
    {
        self.config.colors = specs;
        self
    }

    /// Whether white space at the start of a line is left out.
    pub fn trim_ascii(&mut self, yes: bool) -> (builder: &mut StandardBuilder)
        ensures
            builder.config() == (Config { trim_ascii: yes, ..old(self).config() }),
            *final(self) == *final(builder),
    {
        self.config.trim_ascii = yes;
        self
    }

    /// The longest line that is written out, in bytes.
    pub fn max_columns(&mut self, limit: Option<u64>) -> (builder: &mut StandardBuilder)
        ensures
            builder.config() == (Config { max_columns: limit, ..old(self).config() }),
            *final(self) == *final(builder),
    {
        self.config.max_columns = limit;
        self
    }

    /// Whether the path stands once above the lines of its file.
    pub fn heading(&mut self, yes: bool) -> (builder: &mut StandardBuilder)
        ensures
            builder.config() == (Config { heading: yes, ..old(self).config() }),
            *final(self) == *final(builder),
    {
        self.config.heading = yes;
        self
    }

    /// Whether the column of the first match is written.
    pub fn column(&mut self, yes: bool) -> (builder: &mut StandardBuilder)
        ensures
            builder.config() == (Config { column: yes, ..old(self).config() }),
            *final(self) == *final(builder),
    {
        self.config.column = yes;
        self
    }

    /// What ends a path, if not the separator or the line terminator.
    pub fn path_terminator(&mut self, terminator: Option<u8>) -> (builder: &mut StandardBuilder)
        ensures
            builder.config() == (Config { path_terminator: terminator, ..old(self).config() }),
            *final(self) == *final(builder),
    {
        self.config.path_terminator = terminator;
        self
    }
}

/// The standard formatter.
pub struct Standard {
    config: Config,
    wtr: CounterWriter,
    /// The matches in the line that is written, as offsets into it.
    matches: Vec<Match>,
}

impl Standard {
    /// The options.
    pub closed spec fn config(&self) -> Config {
        self.config
    }

    /// The writer.
    pub closed spec fn writer(&self) -> CounterWriter {
        self.wtr
    }

    /// A sink that writes the matching lines of the file at `path` with
    /// this formatter; `matcher` finds the matches in each line.
    pub fn sink_with_path<'p, M: Matcher>(self, matcher: M, path: &'p [u8]) -> (sink: StandardSink<
        'p,
        M,
    >)
        ensures
            sink.printer() == self,
            sink.spec_path() == path@,
            sink.matcher() == matcher,
            sink.spec_match_count() == 0,
            sink.taken() == Seq::<LineRecord>::empty(),
    {
        StandardSink {
            matcher,
            standard: self,
            path,
            match_count: 0,
            received: Ghost(Seq::empty()),
        }
    }

    /// The options.
    pub fn options(&self) -> (config: &Config)
        ensures
            *config == self.config(),
    {
        &self.config
    }

    /// Hands out what was formatted since the last call, as steps for the
    /// caller to perform on its writer.
    pub fn take_ops(&mut self) -> (ops: Vec<WriteOp>)
        ensures
            ops@ == old(self).writer().pending(),
            final(self).writer().pending() == Seq::<WriteOp>::empty(),
            final(self).writer().cells() == old(self).writer().cells(),
            final(self).writer().color() == old(self).writer().color(),
            final(self).config() == old(self).config(),
    {
        self.wtr.take_ops()
    }

    /// Begins the count of a new search.
    pub fn reset_count(&mut self)
        ensures
            final(self).writer().cells() == old(self).writer().cells(),
            final(self).writer().color() == old(self).writer().color(),
            final(self).writer().spec_count() == 0,
            final(self).writer().counted_before() == capped(
                old(self).writer().counted_before() + old(self).writer().spec_count(),
            ),
            final(self).config() == old(self).config(),
    {
        self.wtr.reset_count();
    }
}

/// The matches `found`, which lie in a buffer, as offsets into the line
/// that begins at `start`.
pub open spec fn relative(found: Seq<Match>, start: int) -> Seq<Match> {
    Seq::new(
        found.len(),
        |k: int|
            Match::spec_new(
                (found[k].spec_start() - start) as usize,
                (found[k].spec_end() - start) as usize,
            ),
    )
}

/// The matches of `matcher` in the line `record`, as the formatter finds
/// them where it has to know them: the successive matches in the line taken
/// without its terminator, as offsets into the line.
pub open spec fn line_matches<M: Matcher>(
    matcher: &M,
    record: LineRecord,
    needs_matches: bool,
) -> Result<Seq<Match>, M::Error> {
    if !needs_matches {
        Ok(Seq::empty())
    } else {
        let upto = spec_without_terminator(
            record.buffer.subrange(0, record.end as int),
            record.line_term,
        );
        match matches_from(
            |from: int| matcher.found(upto, from),
            upto.len(),
            record.start as int,
            record.end as int,
        ) {
            Ok(found) => Ok(relative(found, record.start as int)),
            Err(e) => Err(e),
        }
    }
}

/// A sink that writes the matching lines of one file with a `Standard`.
pub struct StandardSink<'p, M> {
    matcher: M,
    standard: Standard,
    path: &'p [u8],
    /// How many lines were taken.
    match_count: u64,
    /// The lines taken.
    received: Ghost<Seq<LineRecord>>,
}

impl<'p, M: Matcher> StandardSink<'p, M> {
    /// The formatter.
    pub closed spec fn printer(&self) -> Standard {
        self.standard
    }

    /// The path of the file.
    pub closed spec fn spec_path(&self) -> Seq<u8> {
        self.path@
    }

    /// The matcher.
    pub closed spec fn matcher(&self) -> M {
        self.matcher
    }

    /// How many lines were taken; a count that does not fit stays at the
    /// largest that does.
    pub closed spec fn spec_match_count(&self) -> u64 {
        self.match_count
    }

    /// The lines taken.
    pub closed spec fn taken(&self) -> Seq<LineRecord> {
        self.received@
    }

    /// What a terminal shows of all that was written.
    pub open spec fn written(&self) -> Seq<Cell> {
        self.printer().writer().cells()
    }

    /// Whether a line was taken.
    pub fn has_match(&self) -> (yes: bool)
        ensures
            yes == (self.spec_match_count() > 0),
    {
        self.match_count > 0
    }

    /// Ends the sink and gives the formatter back.
    pub fn into_printer(self) -> (printer: Standard)
        ensures
            printer == self.printer(),
    {
        self.standard
    }

    /// Hands out what was formatted since the last call, as steps for the
    /// caller to perform on its writer.
    pub fn take_ops(&mut self) -> (ops: Vec<WriteOp>)
        ensures
            ops@ == old(self).printer().writer().pending(),
            final(self).printer().writer().pending() == Seq::<WriteOp>::empty(),
            final(self).printer().writer().cells() == old(self).printer().writer().cells(),
            final(self).printer().writer().color() == old(self).printer().writer().color(),
            final(self).printer().config() == old(self).printer().config(),
            final(self).taken() == old(self).taken(),
            final(self).spec_match_count() == old(self).spec_match_count(),
            final(self).matcher() == old(self).matcher(),
            final(self).spec_path() == old(self).spec_path(),
    {
        self.standard.take_ops()
    }

    /// Finds the matches in the line `range` of `bytes`, where the
    /// formatter has to know them.
    fn record_matches(&mut self, searcher: &Searcher, bytes: &[u8], range: Match) -> (r: Result<
        (),
        SearchError,
    >)
        requires
            range.spec_end() <= bytes@.len(),
        ensures
            final(self).matcher == old(self).matcher,
            final(self).path == old(self).path,
            final(self).match_count == old(self).match_count,
            final(self).received == old(self).received,
            final(self).standard.config == old(self).standard.config,
            final(self).standard.wtr == old(self).standard.wtr,
            ({
                let record = LineRecord {
                    start: range.spec_start(),
                    end: range.spec_end(),
                    absolute_byte_offset: 0,
                    line_number: None,
                    bytes: bytes@.subrange(range.spec_start() as int, range.spec_end() as int),
                    buffer: bytes@,
                    line_term: searcher.spec_line_terminator(),
                };
                match line_matches(
                    &old(self).matcher,
                    record,
                    old(self).standard.config.spec_needs_matches(
                        old(self).standard.wtr.spec_supports_color(),
                    ),
                ) {
                    Ok(found) => r is Ok && final(self).standard.matches@ == found && in_order(
                        found,
                        0,
                        range.spec_end() - range.spec_start(),
                        range.spec_end() - range.spec_start() + 1,
                    ),
                    Err(e) => r matches Err(err) && err.message() == e.text() && !err.is_io(),
                }
            }),
    {
        self.standard.matches.clear();
        let needs = self.standard.config.column || (self.standard.wtr.supports_color()
            && !self.standard.config.colors.matched().is_none());
        if !needs {
            return Ok(());
        }
        let found = find_iter_at_in_context(searcher, &self.matcher, bytes, range)?;
        let start = range.start();
        let mut k: usize = 0;
        while k < found.len()
            invariant
                k <= found.len(),
                start == range.spec_start(),
                in_order(
                    found@,
                    start as int,
                    range.spec_end() as int,
                    range.spec_end() as int,
                ),
                self.matcher == old(self).matcher,
                self.path == old(self).path,
                self.match_count == old(self).match_count,
                self.received == old(self).received,
                self.standard.config == old(self).standard.config,
                self.standard.wtr == old(self).standard.wtr,
                self.standard.matches@ == relative(found@, start as int).take(k as int),
            decreases found.len() - k,
        {
            let m = found[k];
            let shifted = Match::new(m.start() - start, m.end() - start);
            self.standard.matches.push(shifted);
            k += 1;
            assert(relative(found@, start as int).take(k as int) =~= relative(
                found@,
                start as int,
            ).take(k - 1).push(shifted));
        }
        proof {
            let rel = relative(found@, start as int);
            assert(rel.take(found@.len() as int) =~= rel);
            assert forall|j: int| 0 <= j < rel.len() implies rel[j].spec_start()
                == found@[j].spec_start() - start && rel[j].spec_end() == found@[j].spec_end()
                - start by {
                Match::lemma_spec_new(
                    (found@[j].spec_start() - start) as usize,
                    (found@[j].spec_end() - start) as usize,
                );
            }
        }
        Ok(())
    }
}

impl<'p, M: Matcher> Sink for StandardSink<'p, M> {
    type Error = SearchError;

    open spec fn received(&self) -> Seq<LineRecord> {
        self.taken()
    }

    /// The colour that was set last is taken back.
    open spec fn ready(&self) -> bool {
        self.printer().writer().color() is None
    }

    /// The search is to go on, unless the matcher fails on the line.
    open spec fn answer(&self, searcher: &Searcher, mat: LineRecord) -> Answer {
        match line_matches(
            &self.matcher(),
            only_line(mat, searcher.spec_line_terminator()),
            self.printer().config().spec_needs_matches(
                self.printer().writer().spec_supports_color(),
            ),
        ) {
            Ok(_) => Ok(true),
            Err(e) => Err((e.text(), false)),
        }
    }

    /// Writes the line `mat` with all that stands before it, and asks the
    /// search to go on.
    fn matched(&mut self, searcher: &Searcher, mat: &SinkMatch<'_>) -> (r: Result<
        bool,
        SearchError,
    >)
        ensures
            final(self).matcher() == old(self).matcher(),
            final(self).spec_path() == old(self).spec_path(),
            final(self).printer().config() == old(self).printer().config(),
            final(self).spec_match_count() == capped(old(self).spec_match_count() + 1),
            match line_matches(
                &old(self).matcher(),
                only_line(mat@, searcher.spec_line_terminator()),
                old(self).printer().config().spec_needs_matches(
                    old(self).printer().writer().spec_supports_color(),
                ),
            ) {
                Ok(found) => r == Ok::<bool, SearchError>(true)
                    && final(self).written() == old(self).written()
                    + old(self).printer().config().rendered(
                    old(self).spec_path(),
                    mat@.bytes,
                    mat@.line_number,
                    found,
                    searcher.spec_line_terminator(),
                    old(self).printer().writer().spec_supports_color(),
                    old(self).printer().writer().spec_count(),
                    old(self).printer().writer().counted_before(),
                ),
                Err(e) => r matches Err(err) && err.message() == e.text() && !err.is_io(),
            },
    {
        self.match_count = self.match_count.saturating_add(1);
        let buffer = mat.buffer();
        let line = mat.bytes();
        assert(line@.len() == mat@.end - mat@.start);
        let span = mat.bytes_range_in_buffer();
        let range = Match::new(span.start, span.end);
        match self.record_matches(searcher, buffer, range) {
            Ok(()) => {},
            Err(err) => {
                return Err(err);
            },
        }
        let sunk = Sunk::from_sink_match(mat, self.standard.matches.as_slice());
        let mut formatter = StandardImpl::from_match(
            searcher,
            &self.standard.config,
            self.path,
            sunk,
        );
        formatter.sink(&mut self.standard.wtr);
        proof {
            self.received@ = self.received@.push(mat@);
        }
        Ok(true)
    }
}

/// The record `record` as `record_matches` reads it: its line in its
/// buffer, under the terminator of the search.
pub open spec fn only_line(record: LineRecord, line_term: LineTerminator) -> LineRecord {
    LineRecord {
        start: record.start,
        end: record.end,
        absolute_byte_offset: 0,
        line_number: None,
        bytes: record.buffer.subrange(record.start as int, record.end as int),
        buffer: record.buffer,
        line_term,
    }
}

} // verus!
