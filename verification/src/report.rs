//! What the command line shows: how a log record is written (its level's name
//! in the level's colour, then the message), what the logger answers when asked
//! whether it is enabled, and how a failed run reports an error and its causes.
use vstd::prelude::*;

verus! {

/// The severity of a log record, most severe first.
#[derive(Debug, Clone, Copy, PartialEq, Eq, Structural)]
pub enum LogLevel {
    Error,
    Warn,
    Info,
    Debug,
    Trace,
}

/// The colours a level is written in.
#[derive(Debug, Clone, Copy, PartialEq, Eq, Structural)]
pub enum TermColor {
    Black,
    Blue,
    Green,
    Yellow,
    Red,
}

/// The rank of a level: 1 for the most severe, 5 for the least.
pub open spec fn level_rank(l: LogLevel) -> int {
    match l {
        LogLevel::Error => 1,
        LogLevel::Warn => 2,
        LogLevel::Info => 3,
        LogLevel::Debug => 4,
        LogLevel::Trace => 5,
    }
}

/// What the logger answers when asked whether it is enabled for records of a
/// level (as `log_enabled!` asks): yes for errors only. The records the logger
/// is handed are written whatever this answers.
pub fn log_enabled(level: LogLevel) -> (enabled: bool)
    ensures
        enabled == (level_rank(level) <= level_rank(LogLevel::Error)),
        enabled == (level == LogLevel::Error),
{
    match level {
        LogLevel::Error => true,
        _ => false,
    }
}

/// The colour a level is written in.
pub open spec fn color_of(level: LogLevel) -> TermColor {
    match level {
        LogLevel::Trace => TermColor::Black,
        LogLevel::Debug => TermColor::Blue,
        LogLevel::Info => TermColor::Green,
        LogLevel::Warn => TermColor::Yellow,
        LogLevel::Error => TermColor::Red,
    }
}

/// The colour a level is written in.
pub fn level_color(level: LogLevel) -> (c: TermColor)
    ensures
        c == color_of(level),
{
    match level {
        LogLevel::Trace => TermColor::Black,
        LogLevel::Debug => TermColor::Blue,
        LogLevel::Info => TermColor::Green,
        LogLevel::Warn => TermColor::Yellow,
        LogLevel::Error => TermColor::Red,
    }
}

/// A log line: the (coloured) level, a bar, the message.
pub fn log_line(level: &str, message: &str) -> (s: String)
    ensures
        s@ == level@ + " | "@ + message@,
{
    let mut s = String::from_str(level);
    s.append(" | ");
    s.append(message);
    s
}

/// The name a level is written with.
pub open spec fn level_name_of(level: LogLevel) -> Seq<char> {
    match level {
        LogLevel::Error => "ERROR"@,
        LogLevel::Warn => "WARN"@,
        LogLevel::Info => "INFO"@,
        LogLevel::Debug => "DEBUG"@,
        LogLevel::Trace => "TRACE"@,
    }
}

/// The name a level is written with.
pub fn level_name(level: LogLevel) -> (s: &'static str)
    ensures
        s@ == level_name_of(level),
{
    match level {
        LogLevel::Error => "ERROR",
        LogLevel::Warn => "WARN",
        LogLevel::Info => "INFO",
        LogLevel::Debug => "DEBUG",
        LogLevel::Trace => "TRACE",
    }
}

/// The number that selects a colour as the foreground colour of a terminal.
pub open spec fn color_code(c: TermColor) -> Seq<char> {
    match c {
        TermColor::Black => "30"@,
        TermColor::Red => "31"@,
        TermColor::Green => "32"@,
        TermColor::Yellow => "33"@,
        TermColor::Blue => "34"@,
    }
}

/// `text` between the escape sequence that turns on bold and the colour and the
/// one that resets the terminal's style.
pub open spec fn bold_styled(text: Seq<char>, c: TermColor) -> Seq<char> {
    seq!['\x1B'] + "[1;"@ + color_code(c) + "m"@ + text + seq!['\x1B'] + "[0m"@
}

/// `text` holds no escape character.
pub open spec fn has_no_escape(text: Seq<char>) -> bool {
    forall|i: int| 0 <= i < text.len() ==> text[i] != '\x1B'
}

/// Writes `text` in bold in `color`, through `colored`'s `Colorize::color` and
/// `Colorize::bold` on `&str` and the `Display` of the coloured string.
///
/// Whether colour is written depends on the environment (`CLICOLOR_FORCE`,
/// `NO_COLOR`, `CLICOLOR`, whether standard output is a terminal) and on an
/// override the program may set: the text comes back either unchanged or
/// between the bold-and-colour sequence and the reset sequence. Of a text that
/// holds an escape character (which `colored` may rewrite) nothing is stated.
#[verifier::external_body]
fn paint_bold(text: &str, color: TermColor) -> (s: String)
    ensures
        has_no_escape(text@) ==> (s@ == text@ || s@ == bold_styled(text@, color)),
{
    let c = match color {
        TermColor::Black => colored::Color::Black,
        TermColor::Blue => colored::Color::Blue,
        TermColor::Green => colored::Color::Green,
        TermColor::Yellow => colored::Color::Yellow,
        TermColor::Red => colored::Color::Red,
    };
    colored::Colorize::bold(colored::Colorize::color(text, c)).to_string()
}

/// The line a log record is written as: its level's name, in bold and in the
/// level's colour where the terminal shows colour (plain where it does not), a
/// bar, and the message.
pub fn format_log_record(level: LogLevel, message: &str) -> (s: String)
    ensures
        s@ == level_name_of(level) + " | "@ + message@ || s@ == bold_styled(
            level_name_of(level),
            color_of(level),
        ) + " | "@ + message@,
{
    let name = level_name(level);
    proof {
        reveal_strlit("ERROR");
        reveal_strlit("WARN");
        reveal_strlit("INFO");
        reveal_strlit("DEBUG");
        reveal_strlit("TRACE");
        assert(has_no_escape(name@));
    }
    let painted = paint_bold(name, level_color(level));
    let s = log_line(painted.as_str(), message);
    s
}

// ---------------------------------------------------------------------------
// Lines of text
// ---------------------------------------------------------------------------

/// The position of the first line feed in `s`, or its length if it has none.
pub open spec fn newline_index(s: Seq<char>) -> nat
    decreases s.len(),
{
    if s.len() == 0 {
        0
    } else if s[0] == '\n' {
        0
    } else {
        1 + newline_index(s.drop_first())
    }
}

/// A line without the carriage return that ended it, if one did.
pub open spec fn strip_cr(line: Seq<char>) -> Seq<char> {
    if line.len() > 0 && line.last() == '\r' {
        line.drop_last()
    } else {
        line
    }
}

/// The lines of a text: split at each line feed, a carriage return before a
/// line feed dropped, and no empty last line after a final line feed.
pub open spec fn lines_of(s: Seq<char>) -> Seq<Seq<char>>
    decreases s.len(),
{
    if s.len() == 0 {
        Seq::empty()
    } else {
        let i = newline_index(s);
        if i >= s.len() {
            seq![s]
        } else {
            seq![strip_cr(s.take(i as int))] + lines_of(s.skip(i + 1 as int))
        }
    }
}

proof fn lemma_newline_index_bound(s: Seq<char>)
    ensures
        newline_index(s) <= s.len(),
        newline_index(s) < s.len() ==> s[newline_index(s) as int] == '\n',
        forall|j: int| 0 <= j < newline_index(s) ==> s[j] != '\n',
    decreases s.len(),
{
    if s.len() > 0 && s[0] != '\n' {
        lemma_newline_index_bound(s.drop_first());
        assert forall|j: int| 0 <= j < newline_index(s) implies s[j] != '\n' by {
            if j > 0 {
                assert(s[j] == s.drop_first()[j - 1]);
            }
        }
    }
}

proof fn lemma_newline_index_at(s: Seq<char>, i: int)
    requires
        0 <= i <= s.len(),
        forall|j: int| 0 <= j < i ==> s[j] != '\n',
        i == s.len() || s[i] == '\n',
    ensures
        newline_index(s) == i,
    decreases s.len(),
{
    if s.len() > 0 && i > 0 {
        let t = s.drop_first();
        assert forall|j: int| 0 <= j < i - 1 implies t[j] != '\n' by {
            assert(t[j] == s[j + 1]);
        }
        if i < s.len() {
            assert(t[i - 1] == s[i]);
        }
        lemma_newline_index_at(t, i - 1);
    }
}

/// No line of a text holds a line feed.
pub proof fn lemma_lines_hold_no_line_feed(s: Seq<char>)
    ensures
        forall|k: int, j: int|
            0 <= k < lines_of(s).len() && 0 <= j < lines_of(s)[k].len() ==> #[trigger] lines_of(
                s,
            )[k][j] != '\n',
    decreases s.len(),
{
    if s.len() > 0 {
        lemma_newline_index_bound(s);
        let i = newline_index(s);
        if i < s.len() {
            let rest = s.skip(i + 1 as int);
            lemma_lines_hold_no_line_feed(rest);
            let first = strip_cr(s.take(i as int));
            assert forall|k: int, j: int|
                0 <= k < lines_of(s).len() && 0 <= j < lines_of(s)[k].len() implies #[trigger] lines_of(
                s,
            )[k][j] != '\n' by {
                if k == 0 {
                    assert(lines_of(s)[0] == first);
                    assert(first[j] == s[j]);
                } else {
                    assert(lines_of(s)[k] == lines_of(rest)[k - 1]);
                }
            }
        }
    }
}

/// The lines of `text`.
pub fn text_lines(text: &str) -> (lines: Vec<String>)
    ensures
        lines@.len() == lines_of(text@).len(),
        forall|k: int| 0 <= k < lines@.len() ==> #[trigger] lines@[k]@ == lines_of(text@)[k],
{
    let n = text.unicode_len();
    let ghost s = text@;
    let mut lines: Vec<String> = Vec::new();
    let mut start: usize = 0;
    let mut i: usize = 0;
    assert(s.skip(0) =~= s);
    assert(lines@.map_values(|l: String| l@) + lines_of(s) =~= lines_of(s));
    while i < n
        invariant
            n == s.len(),
            s == text@,
            0 <= start <= i <= n,
            forall|j: int| start <= j < i ==> s[j] != '\n',
            lines_of(s) == lines@.map_values(|l: String| l@) + lines_of(s.skip(start as int)),
        decreases n - i,
    {
        let c = text.get_char(i);
        if c == '\n' {
            let ghost rest = s.skip(start as int);
            proof {
                assert forall|j: int| 0 <= j < i - start implies rest[j] != '\n' by {
                    assert(rest[j] == s[start + j]);
                }
                assert(rest[i - start] == s[i as int]);
                lemma_newline_index_at(rest, i - start);
                assert(rest.take(i - start) =~= s.subrange(start as int, i as int));
                assert(rest.skip(i - start + 1) =~= s.skip(i + 1));
            }
            let mut end = i;
            if end > start && text.get_char(end - 1) == '\r' {
                end = end - 1;
            }
            let line = String::from_str(text.substring_char(start, end));
            proof {
                assert(line@ =~= strip_cr(s.subrange(start as int, i as int)));
            }
            let ghost before = lines@;
            lines.push(line);
            proof {
                assert(lines@.map_values(|l: String| l@) =~= before.map_values(|l: String| l@).push(
                    line@,
                ));
                assert(lines_of(rest) == seq![line@] + lines_of(s.skip(i + 1)));
            }
            start = i + 1;
        }
        i = i + 1;
    }
    if start < n {
        let ghost rest = s.skip(start as int);
        proof {
            assert forall|j: int| 0 <= j < n - start implies rest[j] != '\n' by {
                assert(rest[j] == s[start + j]);
            }
            lemma_newline_index_at(rest, n - start);
        }
        let line = String::from_str(text.substring_char(start, n));
        let ghost before = lines@;
        lines.push(line);
        proof {
            assert(line@ =~= rest);
            assert(lines@.map_values(|l: String| l@) =~= before.map_values(|l: String| l@).push(
                line@,
            ));
            assert(lines_of(rest) == seq![rest]);
        }
    } else {
        assert(s.skip(start as int).len() == 0);
    }
    proof {
        assert(lines_of(s.skip(n as int)) =~= Seq::<Seq<char>>::empty()) by {
            if start >= n {
                assert(s.skip(start as int) =~= Seq::<char>::empty());
            }
        }
        assert(lines_of(s) =~= lines@.map_values(|l: String| l@));
        assert forall|k: int| 0 <= k < lines@.len() implies #[trigger] lines@[k]@ == lines_of(
            text@,
        )[k] by {
            assert(lines@.map_values(|l: String| l@)[k] == lines@[k]@);
        }
    }
    lines
}

// ---------------------------------------------------------------------------
// Numbers
// ---------------------------------------------------------------------------

/// The decimal digit of a number below ten.
pub open spec fn digit(d: nat) -> char {
    if d == 0 {
        '0'
    } else if d == 1 {
        '1'
    } else if d == 2 {
        '2'
    } else if d == 3 {
        '3'
    } else if d == 4 {
        '4'
    } else if d == 5 {
        '5'
    } else if d == 6 {
        '6'
    } else if d == 7 {
        '7'
    } else if d == 8 {
        '8'
    } else {
        '9'
    }
}

/// The decimal notation of a number, without leading zeros.
pub open spec fn decimal(n: nat) -> Seq<char>
    decreases n,
{
    if n < 10 {
        seq![digit(n)]
    } else {
        decimal(n / 10).push(digit(n % 10))
    }
}

fn digit_text(d: usize) -> (s: &'static str)
    requires
        d < 10,
    ensures
        s@ == seq![digit(d as nat)],
{
    proof {
        reveal_strlit("0");
        reveal_strlit("1");
        reveal_strlit("2");
        reveal_strlit("3");
        reveal_strlit("4");
        reveal_strlit("5");
        reveal_strlit("6");
        reveal_strlit("7");
        reveal_strlit("8");
        reveal_strlit("9");
    }
    let s = if d == 0 {
        "0"
    } else if d == 1 {
        "1"
    } else if d == 2 {
        "2"
    } else if d == 3 {
        "3"
    } else if d == 4 {
        "4"
    } else if d == 5 {
        "5"
    } else if d == 6 {
        "6"
    } else if d == 7 {
        "7"
    } else if d == 8 {
        "8"
    } else {
        "9"
    };
    assert(s@ =~= seq![digit(d as nat)]);
    s
}

/// Appends the decimal notation of `n` to `out`.
pub fn push_decimal(out: &mut String, n: usize)
    ensures
        final(out)@ == old(out)@ + decimal(n as nat),
    decreases n,
{
    if n >= 10 {
        push_decimal(out, n / 10);
    }
    out.append(digit_text(n % 10));
    proof {
        if n >= 10 {
            assert(decimal(n as nat) == decimal((n / 10) as nat).push(digit((n % 10) as nat)));
        }
    }
    assert(final(out)@ =~= old(out)@ + decimal(n as nat));
}

// ---------------------------------------------------------------------------
// Error reports
// ---------------------------------------------------------------------------

/// The report lines of one cause, numbered `i`: its first line after `  i: `, each
/// further line indented to match.
pub open spec fn cause_lines(i: nat, text: Seq<char>) -> Seq<Seq<char>> {
    let lines = lines_of(text);
    Seq::new(
        lines.len(),
        |j: int|
            if j == 0 {
                "  "@ + decimal(i) + ": "@ + lines[0]
            } else {
                "     "@ + lines[j]
            },
    )
}

/// The report lines of a list of causes, numbered from 0.
pub open spec fn causes_lines(causes: Seq<Seq<char>>) -> Seq<Seq<char>>
    decreases causes.len(),
{
    if causes.len() == 0 {
        Seq::empty()
    } else {
        causes_lines(causes.drop_last()) + cause_lines(
            (causes.len() - 1) as nat,
            causes.last(),
        )
    }
}

/// The lines that report a failed run: the error, then, when it has causes,
/// `Caused by:` and the lines of each cause.
pub open spec fn report_lines(chain: Seq<Seq<char>>) -> Seq<Seq<char>> {
    if chain.len() > 1 {
        seq![chain[0], "Caused by:"@] + causes_lines(chain.skip(1))
    } else {
        seq![chain[0]]
    }
}

/// The number of lines of a list of texts, all together.
pub open spec fn line_total(texts: Seq<Seq<char>>) -> nat
    decreases texts.len(),
{
    if texts.len() == 0 {
        0
    } else {
        line_total(texts.drop_last()) + lines_of(texts.last()).len()
    }
}

proof fn lemma_causes_layout(causes: Seq<Seq<char>>)
    ensures
        causes_lines(causes).len() == line_total(causes),
        forall|k: int, j: int|
            0 <= k < causes.len() && 0 <= j < lines_of(causes[k]).len() ==> causes_lines(causes)[line_total(
                causes.take(k),
            ) + j] == #[trigger] cause_lines(k as nat, causes[k])[j],
    decreases causes.len(),
{
    if causes.len() > 0 {
        let p = causes.drop_last();
        let n = causes.len() - 1;
        lemma_causes_layout(p);
        assert(p =~= causes.take(n));
        assert forall|k: int, j: int|
            0 <= k < causes.len() && 0 <= j < lines_of(causes[k]).len() implies causes_lines(causes)[line_total(
                causes.take(k),
            ) + j] == #[trigger] cause_lines(k as nat, causes[k])[j] by {
            if k < n {
                assert(causes.take(k) =~= p.take(k));
                assert(p[k] == causes[k]);
                lemma_line_total_prefix(p, k);
            }
        }
    }
}

proof fn lemma_line_total_prefix(texts: Seq<Seq<char>>, k: int)
    requires
        0 <= k < texts.len(),
    ensures
        line_total(texts.take(k)) + lines_of(texts[k]).len() <= line_total(texts),
    decreases texts.len(),
{
    if k < texts.len() - 1 {
        assert(texts.drop_last().take(k) =~= texts.take(k));
        lemma_line_total_prefix(texts.drop_last(), k);
    } else {
        assert(texts.take(k) =~= texts.drop_last());
    }
}

/// The report of a failed run starts with the error. When the error has causes,
/// `Caused by:` follows, then every cause, numbered from 0 in the order of the
/// chain, each with all its lines: its first line after `  i: `, the others
/// indented by five spaces; nothing else is reported.
pub proof fn lemma_error_report_layout(chain: Seq<Seq<char>>)
    requires
        chain.len() > 0,
    ensures
        report_lines(chain)[0] == chain[0],
        chain.len() == 1 ==> report_lines(chain).len() == 1,
        chain.len() > 1 ==> report_lines(chain)[1] == "Caused by:"@,
        chain.len() > 1 ==> report_lines(chain).len() == 2 + line_total(chain.skip(1)),
        forall|k: int, j: int|
            1 <= k < chain.len() && 0 <= j < lines_of(chain[k]).len() ==> #[trigger] report_lines(
                chain,
            )[2 + line_total(chain.skip(1).take(k - 1)) + j] == if j == 0 {
                "  "@ + decimal((k - 1) as nat) + ": "@ + lines_of(chain[k])[0]
            } else {
                "     "@ + lines_of(chain[k])[j]
            },
{
    if chain.len() > 1 {
        let causes = chain.skip(1);
        lemma_causes_layout(causes);
        assert forall|k: int, j: int|
            1 <= k < chain.len() && 0 <= j < lines_of(chain[k]).len() implies #[trigger] report_lines(
                chain,
            )[2 + line_total(chain.skip(1).take(k - 1)) + j] == if j == 0 {
                "  "@ + decimal((k - 1) as nat) + ": "@ + lines_of(chain[k])[0]
            } else {
                "     "@ + lines_of(chain[k])[j]
            } by {
            assert(causes[k - 1] == chain[k]);
            lemma_line_total_prefix(causes, k - 1);
            assert(cause_lines((k - 1) as nat, causes[k - 1])[j] == causes_lines(causes)[line_total(
                causes.take(k - 1),
            ) + j]);
        }
    }
}

/// The report lines of one cause, numbered `i`.
fn push_cause_lines(out: &mut Vec<String>, i: usize, text: &str)
    ensures
        final(out)@.map_values(|l: String| l@) == old(out)@.map_values(|l: String| l@)
            + cause_lines(i as nat, text@),
{
    let lines = text_lines(text);
    let ghost expected = cause_lines(i as nat, text@);
    let ghost base = out@.map_values(|l: String| l@);
    let mut j: usize = 0;
    while j < lines.len()
        invariant
            0 <= j <= lines@.len(),
            lines@.len() == lines_of(text@).len(),
            forall|k: int| 0 <= k < lines@.len() ==> #[trigger] lines@[k]@ == lines_of(text@)[k],
            expected == cause_lines(i as nat, text@),
            out@.map_values(|l: String| l@) == base + expected.take(j as int),
        decreases lines@.len() - j,
    {
        let mut line: String;
        if j == 0 {
            line = String::from_str("  ");
            push_decimal(&mut line, i);
            line.append(": ");
        } else {
            line = String::from_str("     ");
        }
        line.append(lines[j].as_str());
        let ghost before = out@.map_values(|l: String| l@);
        out.push(line);
        proof {
            assert(out@.map_values(|l: String| l@) =~= before.push(line@));
            assert(expected[j as int] == line@);
            assert(expected.take(j + 1) =~= expected.take(j as int).push(expected[j as int]));
        }
        j = j + 1;
    }
    assert(expected.take(j as int) =~= expected);
}

/// A text that is not empty has at least one line.
proof fn lemma_nonempty_has_line(s: Seq<char>)
    requires
        s.len() > 0,
    ensures
        lines_of(s).len() >= 1,
{
}

/// A text that is not empty and holds no line feed is a single line: itself.
pub proof fn lemma_one_line(s: Seq<char>)
    requires
        s.len() > 0,
        forall|j: int| 0 <= j < s.len() ==> s[j] != '\n',
    ensures
        lines_of(s) == seq![s],
{
    lemma_newline_index_bound(s);
}

proof fn lemma_line_total_at_least(texts: Seq<Seq<char>>)
    requires
        forall|k: int| 0 <= k < texts.len() ==> (#[trigger] texts[k]).len() > 0,
    ensures
        line_total(texts) >= texts.len(),
    decreases texts.len(),
{
    if texts.len() > 0 {
        let p = texts.drop_last();
        assert forall|k: int| 0 <= k < p.len() implies (#[trigger] p[k]).len() > 0 by {
            assert(p[k] == texts[k]);
        }
        lemma_line_total_at_least(p);
        lemma_nonempty_has_line(texts.last());
    }
}

/// Every cause is reported: when the error has causes and none of them is
/// empty, the report holds the error, `Caused by:` and at least one line for
/// each cause.
pub proof fn lemma_every_cause_reported(chain: Seq<Seq<char>>)
    requires
        chain.len() > 1,
        forall|k: int| 1 <= k < chain.len() ==> (#[trigger] chain[k]).len() > 0,
    ensures
        report_lines(chain).len() >= chain.len() + 1,
        report_lines(chain)[0] == chain[0],
        report_lines(chain)[1] == "Caused by:"@,
{
    let causes = chain.skip(1);
    assert forall|k: int| 0 <= k < causes.len() implies (#[trigger] causes[k]).len() > 0 by {
        assert(causes[k] == chain[k + 1]);
    }
    lemma_line_total_at_least(causes);
    lemma_error_report_layout(chain);
}

/// The report lines of causes that are one line each: `  i: ` and the cause,
/// for each cause in order.
proof fn lemma_single_line_causes(causes: Seq<Seq<char>>)
    requires
        forall|k: int| 0 <= k < causes.len() ==> (#[trigger] causes[k]).len() > 0,
        forall|k: int, j: int| 0 <= k < causes.len() && 0 <= j < causes[k].len() ==> #[trigger] causes[k][j] != '\n',
    ensures
        causes_lines(causes) == Seq::new(
            causes.len(),
            |i: int| "  "@ + decimal(i as nat) + ": "@ + causes[i],
        ),
    decreases causes.len(),
{
    if causes.len() > 0 {
        let p = causes.drop_last();
        let n = causes.len() - 1;
        assert forall|k: int| 0 <= k < p.len() implies (#[trigger] p[k]).len() > 0 by {
            assert(p[k] == causes[k]);
        }
        assert forall|k: int, j: int| 0 <= k < p.len() && 0 <= j < p[k].len() implies #[trigger] p[k][j]
            != '\n' by {
            assert(p[k] == causes[k]);
            assert(causes[k][j] != '\n');
        }
        lemma_single_line_causes(p);
        let last = causes.last();
        assert(causes[n].len() > 0);
        assert forall|j: int| 0 <= j < last.len() implies last[j] != '\n' by {
            assert(causes[n][j] != '\n');
        }
        lemma_one_line(last);
        assert(causes_lines(causes) =~= Seq::new(
            causes.len(),
            |i: int| "  "@ + decimal(i as nat) + ": "@ + causes[i],
        ));
    }
}

/// When every cause is a single line (not empty, no line feed), the report is
/// exactly the error, `Caused by:`, then `  i: ` and cause `i` for each cause,
/// numbered from 0 in the order of the chain.
pub proof fn lemma_single_line_report(chain: Seq<Seq<char>>)
    requires
        chain.len() > 1,
        forall|k: int| 1 <= k < chain.len() ==> (#[trigger] chain[k]).len() > 0,
        forall|k: int, j: int| 1 <= k < chain.len() && 0 <= j < chain[k].len() ==> #[trigger] chain[k][j] != '\n',
    ensures
        report_lines(chain) == seq![chain[0], "Caused by:"@] + Seq::new(
            (chain.len() - 1) as nat,
            |i: int| "  "@ + decimal(i as nat) + ": "@ + chain[i + 1],
        ),
{
    let causes = chain.skip(1);
    assert forall|k: int| 0 <= k < causes.len() implies (#[trigger] causes[k]).len() > 0 by {
        assert(causes[k] == chain[k + 1]);
    }
    assert forall|k: int, j: int| 0 <= k < causes.len() && 0 <= j < causes[k].len() implies #[trigger] causes[k][j]
        != '\n' by {
        assert(causes[k] == chain[k + 1]);
        assert(chain[k + 1][j] != '\n');
    }
    lemma_single_line_causes(causes);
    assert(Seq::new(causes.len(), |i: int| "  "@ + decimal(i as nat) + ": "@ + causes[i]) =~= Seq::new(
        (chain.len() - 1) as nat,
        |i: int| "  "@ + decimal(i as nat) + ": "@ + chain[i + 1],
    ));
}

/// The lines that report a failed run whose error chain is `chain`: the error
/// first, then its causes.
pub fn error_report(chain: &Vec<String>) -> (lines: Vec<String>)
    requires
        chain@.len() > 0,
    ensures
        lines@.map_values(|l: String| l@) == report_lines(chain@.map_values(|c: String| c@)),
        lines@.len() >= 1,
        lines@[0]@ == chain@[0]@,
        chain@.len() == 1 ==> lines@.len() == 1,
        chain@.len() > 1 ==> lines@[1]@ == "Caused by:"@,
        chain@.len() > 1 ==> lines@.len() == 2 + line_total(
            chain@.map_values(|c: String| c@).skip(1),
        ),
{
    let ghost texts = chain@.map_values(|c: String| c@);
    let mut out: Vec<String> = Vec::new();
    out.push(chain[0].clone());
    if chain.len() > 1 {
        out.push(String::from_str("Caused by:"));
        let ghost causes = texts.skip(1);
        let mut k: usize = 1;
        while k < chain.len()
            invariant
                1 <= k <= chain@.len(),
                texts == chain@.map_values(|c: String| c@),
                causes == texts.skip(1),
                out@.map_values(|l: String| l@) == seq![texts[0], "Caused by:"@] + causes_lines(
                    causes.take(k - 1),
                ),
            decreases chain@.len() - k,
        {
            let ghost before = out@.map_values(|l: String| l@);
            push_cause_lines(&mut out, k - 1, chain[k].as_str());
            proof {
                let t = causes.take(k as int);
                assert(t.drop_last() =~= causes.take(k - 1));
                assert(t.last() == chain@[k as int]@);
                assert(causes_lines(t) == causes_lines(causes.take(k - 1)) + cause_lines(
                    (k - 1) as nat,
                    chain@[k as int]@,
                ));
            }
            k = k + 1;
        }
        proof {
            assert(causes.take(k - 1) =~= causes);
        }
    }
    proof {
        if chain@.len() <= 1 {
            assert(out@.map_values(|l: String| l@) =~= seq![texts[0]]);
        }
        lemma_error_report_layout(texts);
        let v = out@.map_values(|l: String| l@);
        assert(v[0] == out@[0]@);
        if chain@.len() > 1 {
            assert(v[1] == out@[1]@);
        }
    }
    out
}

} // verus!
