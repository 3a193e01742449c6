//! The narration log: coloured fragments of text, one line per entry.

use vstd::prelude::*;
use vstd::string::*;

verus! {

/// A colour of the terminal's palette, or one mixed from red, green and
/// blue.
#[derive(Clone, Copy, Debug, PartialEq, Eq, Structural)]
pub enum Tint {
    Default,
    Black,
    White,
    Gray,
    Red,
    LightRed,
    Green,
    Blue,
    Yellow,
    Cyan,
    LightMagenta,
    Rgb { r: u8, g: u8, b: u8 },
}

/// A run of text in one colour.
#[derive(Debug)]
pub struct LogFragment {
    pub color: Tint,
    pub text: String,
}

/// The lines logged so far, oldest first.
pub struct Logbook {
    pub entries: Vec<Vec<LogFragment>>,
}

/// The whole text of a line, colours left out.
pub open spec fn spec_line_text(line: Seq<LogFragment>) -> Seq<char>
    decreases line.len(),
{
    if line.len() == 0 {
        Seq::empty()
    } else {
        spec_line_text(line.drop_last()) + line.last().text@
    }
}

impl Logbook {
    pub fn new() -> (book: Logbook)
        ensures
            book.entries@.len() == 0,
    {
        Logbook { entries: Vec::new() }
    }

    /// Number of lines logged.
    pub fn size(&self) -> (n: usize)
        ensures
            n == self.entries@.len(),
    {
        self.entries.len()
    }

    /// `self` holds the lines of `before`, in place, and possibly more.
    pub open spec fn extends(&self, before: &Logbook) -> bool {
        &&& before.entries@.len() <= self.entries@.len()
        &&& forall|i: int| 0 <= i < before.entries@.len() ==> self.entries@[i] == before.entries@[i]
    }
}

/// The log `after` is the log `before` with one line added for each of the
/// texts, in their order.
pub open spec fn spec_log_grew_by(before: &Logbook, after: &Logbook, lines: Seq<Seq<char>>) -> bool {
    &&& after.extends(before)
    &&& after.entries@.len() == before.entries@.len() + lines.len()
    &&& forall|i: int|
        0 <= i < lines.len() ==> spec_line_text((#[trigger] after.entries@[before.entries@.len() + i])@) == lines[i]
}

/// A log that has grown by `lines` and then by one line more has grown by
/// `lines` with that line's text added.
pub proof fn lemma_log_grew_once_more(
    before: &Logbook,
    middle: &Logbook,
    after: &Logbook,
    lines: Seq<Seq<char>>,
    line: Vec<LogFragment>,
)
    requires
        spec_log_grew_by(before, middle, lines),
        after.entries@ == middle.entries@.push(line),
    ensures
        spec_log_grew_by(before, after, lines.push(spec_line_text(line@))),
{
    let more = lines.push(spec_line_text(line@));
    assert forall|i: int| 0 <= i < more.len() implies spec_line_text(
        (#[trigger] after.entries@[before.entries@.len() + i])@,
    ) == more[i] by {
        if i < lines.len() {
            assert(after.entries@[before.entries@.len() + i] == middle.entries@[before.entries@.len() + i]);
        }
    }
}

/// A log that has grown by `lines` and then by one line that reads `text`
/// has grown by `lines` with `text` added.
pub proof fn lemma_log_grew_by_line(
    before: &Logbook,
    middle: &Logbook,
    after: &Logbook,
    lines: Seq<Seq<char>>,
    text: Seq<char>,
)
    requires
        spec_log_grew_by(before, middle, lines),
        after.extends(middle),
        after.entries@.len() == middle.entries@.len() + 1,
        spec_line_text(after.entries@.last()@) == text,
    ensures
        spec_log_grew_by(before, after, lines.push(text)),
{
    let more = lines.push(text);
    assert forall|i: int| 0 <= i < more.len() implies spec_line_text(
        (#[trigger] after.entries@[before.entries@.len() + i])@,
    ) == more[i] by {
        if i < lines.len() {
            assert(after.entries@[before.entries@.len() + i] == middle.entries@[before.entries@.len() + i]);
        }
    }
}

/// A log that has grown by `first` and then by `second` has grown by the
/// two, one after the other.
pub proof fn lemma_log_grew_further(
    before: &Logbook,
    middle: &Logbook,
    after: &Logbook,
    first: Seq<Seq<char>>,
    second: Seq<Seq<char>>,
)
    requires
        spec_log_grew_by(before, middle, first),
        spec_log_grew_by(middle, after, second),
    ensures
        spec_log_grew_by(before, after, first + second),
{
    let all = first + second;
    assert forall|i: int| 0 <= i < all.len() implies spec_line_text(
        (#[trigger] after.entries@[before.entries@.len() + i])@,
    ) == all[i] by {
        if i < first.len() {
            assert(after.entries@[before.entries@.len() + i] == middle.entries@[before.entries@.len() + i]);
        } else {
            assert(after.entries@[middle.entries@.len() + (i - first.len())] == after.entries@[before.entries@.len()
                + i]);
        }
    }
}

/// Logs a line made of one fragment.
pub fn append(book: &mut Logbook, fragment: LogFragment)
    ensures
        final(book).entries@.len() == old(book).entries@.len() + 1,
        final(book).extends(old(book)),
        final(book).entries@.last()@ == seq![fragment],
{
    let mut line: Vec<LogFragment> = Vec::new();
    line.push(fragment);
    book.entries.push(line);
}

/// Logs a line made of the given fragments.
pub fn append_many(book: &mut Logbook, fragments: Vec<LogFragment>)
    ensures
        final(book).entries@ == old(book).entries@.push(fragments),
        final(book).extends(old(book)),
{
    book.entries.push(fragments);
}

/// Forgets every line.
pub fn clear(book: &mut Logbook)
    ensures
        final(book).entries@.len() == 0,
{
    book.entries.clear();
}

/// Builds a line fragment by fragment, each in the colour chosen last.
pub struct Logger {
    pub current_color: Tint,
    pub fragments: Vec<LogFragment>,
}

impl Logger {
    /// An empty line whose next fragment will be white.
    pub fn new() -> (logger: Logger)
        ensures
            logger.current_color == Tint::White,
            logger.fragments@.len() == 0,
    {
        Logger { current_color: Tint::White, fragments: Vec::new() }
    }

    /// Chooses the colour of the fragments that follow.
    pub fn with_color(self, color: Tint) -> (logger: Logger)
        ensures
            logger.current_color == color,
            logger.fragments@ == self.fragments@,
    {
        let mut logger = self;
        logger.current_color = color;
        logger
    }

    /// Adds `text` to the line, in the current colour.
    pub fn append(self, text: &str) -> (logger: Logger)
        ensures
            logger.current_color == self.current_color,
            logger.fragments@.len() == self.fragments@.len() + 1,
            logger.fragments@.drop_last() == self.fragments@,
            logger.fragments@.last().color == self.current_color,
            logger.fragments@.last().text@ == text@,
            spec_line_text(logger.fragments@) == spec_line_text(self.fragments@) + text@,
    {
        let mut logger = self;
        let fragment = LogFragment { color: logger.current_color, text: String::from_str(text) };
        logger.fragments.push(fragment);
        assert(logger.fragments@.drop_last() =~= self.fragments@);
        logger
    }

    /// Adds `text` to the line in `color`, which stays the current colour.
    pub fn append_with_color(self, color: Tint, text: &str) -> (logger: Logger)
        ensures
            logger.current_color == color,
            logger.fragments@.len() == self.fragments@.len() + 1,
            logger.fragments@.drop_last() == self.fragments@,
            logger.fragments@.last().color == color,
            logger.fragments@.last().text@ == text@,
            spec_line_text(logger.fragments@) == spec_line_text(self.fragments@) + text@,
    {
        self.with_color(color).append(text)
    }

    /// Hands the finished line to the log.
    pub fn log(self, book: &mut Logbook)
        ensures
            final(book).entries@ == old(book).entries@.push(self.fragments),
            final(book).extends(old(book)),
    {
        append_many(book, self.fragments);
    }
}

/// The character that writes the digit `d`.
pub open spec fn spec_digit(d: int) -> char {
    if d == 0 {
        '0'
    } else if d == 1 {
        '1'
    } else if d == 2 {
        '2'
    } else if d == 3 {
        '3'
    } else if d == 4 {
        '4'
    } else if d == 5 {
        '5'
    } else if d == 6 {
        '6'
    } else if d == 7 {
        '7'
    } else if d == 8 {
        '8'
    } else {
        '9'
    }
}

/// The decimal digits of `n`, most significant first.
pub open spec fn spec_decimal_nat(n: nat) -> Seq<char>
    decreases n,
{
    if n < 10 {
        seq![spec_digit(n as int)]
    } else {
        spec_decimal_nat(n / 10).push(spec_digit((n % 10) as int))
    }
}

/// `n` written in decimal, with a leading minus sign when negative.
pub open spec fn spec_decimal(n: int) -> Seq<char> {
    if n < 0 {
        seq!['-'] + spec_decimal_nat((-n) as nat)
    } else {
        spec_decimal_nat(n as nat)
    }
}

fn digit_text(d: u64) -> (s: &'static str)
    requires
        d < 10,
    ensures
        s@ == seq![spec_digit(d as int)],
{
    proof {
        reveal_strlit("0");
        reveal_strlit("1");
        reveal_strlit("2");
        reveal_strlit("3");
        reveal_strlit("4");
        reveal_strlit("5");
        reveal_strlit("6");
        reveal_strlit("7");
        reveal_strlit("8");
        reveal_strlit("9");
    }
    let s: &'static str = if d == 0 {
        "0"
    } else if d == 1 {
        "1"
    } else if d == 2 {
        "2"
    } else if d == 3 {
        "3"
    } else if d == 4 {
        "4"
    } else if d == 5 {
        "5"
    } else if d == 6 {
        "6"
    } else if d == 7 {
        "7"
    } else if d == 8 {
        "8"
    } else {
        "9"
    };
    assert(s@ =~= seq![spec_digit(d as int)]);
    s
}

fn decimal_nat(n: u64) -> (s: String)
    ensures
        s@ == spec_decimal_nat(n as nat),
    decreases n,
{
    if n < 10 {
        String::from_str(digit_text(n))
    } else {
        let mut s: String = decimal_nat(n / 10);
        s.append(digit_text(n % 10));
        assert(s@ =~= spec_decimal_nat(n as nat));
        s
    }
}

/// `n` written in decimal.
pub fn decimal(n: i32) -> (s: String)
    ensures
        s@ == spec_decimal(n as int),
{
    if n < 0 {
        proof {
            reveal_strlit("-");
        }
        let magnitude: u64 = (-(n as i64)) as u64;
        let digits: String = decimal_nat(magnitude);
        let s: String = String::from_str("-").concat(digits.as_str());
        assert(s@ =~= spec_decimal(n as int));
        s
    } else {
        decimal_nat(n as u64)
    }
}

} // verus!
