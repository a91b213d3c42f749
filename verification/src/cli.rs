//! Lines of interactive input, and what the program does with them.
//!
//! A line whose first character that is not white space is a slash is a
//! command; any other line is a prompt, taken as it stands apart from the line
//! end.

use vstd::prelude::*;
use vstd::string::StringExecFns;

use crate::bits::Bits32;
use crate::float;
use crate::session;
use crate::session::{Run, Session, SessionView, MAX_SCORES};
use crate::text;
use crate::text::{and, and_num, lit};

verus! {

/// One line of input.
#[derive(Debug, PartialEq, Eq)]
pub enum Command {
    /// Generate a response to a text.
    Prompt(String),
    /// Discard the session.
    Reset,
    /// Go back to a position.
    Rewind(u32),
    /// Show context size and position.
    ShowCtx,
    /// Show the help text.
    Help,
    /// Leave.
    Exit,
    /// Nothing was entered.
    Empty,
    /// Not understood, and why.
    Unknown(String),
}

/// What a [`Command`] says.
pub enum CommandView {
    Prompt(Seq<char>),
    Reset,
    Rewind(u32),
    ShowCtx,
    Help,
    Exit,
    Empty,
    Unknown(Seq<char>),
}

impl Command {
    pub open spec fn view(&self) -> CommandView {
        match self {
            Command::Prompt(t) => CommandView::Prompt(t@),
            Command::Reset => CommandView::Reset,
            Command::Rewind(n) => CommandView::Rewind(*n),
            Command::ShowCtx => CommandView::ShowCtx,
            Command::Help => CommandView::Help,
            Command::Exit => CommandView::Exit,
            Command::Empty => CommandView::Empty,
            Command::Unknown(t) => CommandView::Unknown(t@),
        }
    }
}

/// The help text.
pub const REPL_HELP: &'static str = "Commands:\n  /reset            discard the entire session (alias: /clear)\n  /rewind <n>       rewind to position n (drops tokens past it)\n  /ctx              show ctx_size and current position\n  /help             this help (alias: /?)\n  /exit             leave the REPL (alias: /quit)\nAnything else is treated as a prompt.";

// ---------------------------------------------------------------------------
// Characters
// ---------------------------------------------------------------------------

/// White space: the characters with the property `White_Space`.
pub open spec fn is_white(c: char) -> bool {
    ||| 0x09 <= c as u32 <= 0x0D
    ||| c as u32 == 0x20
    ||| c as u32 == 0x85
    ||| c as u32 == 0xA0
    ||| c as u32 == 0x1680
    ||| 0x2000 <= c as u32 <= 0x200A
    ||| 0x2028 <= c as u32 <= 0x2029
    ||| c as u32 == 0x202F
    ||| c as u32 == 0x205F
    ||| c as u32 == 0x3000
}

/// The end of a line.
pub open spec fn is_line_end(c: char) -> bool {
    c == '\n' || c == '\r'
}

/// The lower-case letter of an ASCII letter; other characters stay.
pub open spec fn lower(c: char) -> char {
    if 'A' <= c <= 'Z' {
        (c as u32 + 32) as char
    } else {
        c
    }
}

/// All characters in lower case.
pub open spec fn lower_all(s: Seq<char>) -> Seq<char> {
    Seq::new(s.len(), |i: int| lower(s[i]))
}

fn white(c: char) -> (r: bool)
    ensures
        r == is_white(c),
{
    let u: u32 = c as u32;
    (0x09 <= u && u <= 0x0D) || u == 0x20 || u == 0x85 || u == 0xA0 || u == 0x1680 || (0x2000 <= u
        && u <= 0x200A) || (0x2028 <= u && u <= 0x2029) || u == 0x202F || u == 0x205F || u
        == 0x3000
}

fn to_lower(c: char) -> (r: char)
    ensures
        r == lower(c),
{
    match c {
        'A' => 'a',
        'B' => 'b',
        'C' => 'c',
        'D' => 'd',
        'E' => 'e',
        'F' => 'f',
        'G' => 'g',
        'H' => 'h',
        'I' => 'i',
        'J' => 'j',
        'K' => 'k',
        'L' => 'l',
        'M' => 'm',
        'N' => 'n',
        'O' => 'o',
        'P' => 'p',
        'Q' => 'q',
        'R' => 'r',
        'S' => 's',
        'T' => 't',
        'U' => 'u',
        'V' => 'v',
        'W' => 'w',
        'X' => 'x',
        'Y' => 'y',
        'Z' => 'z',
        _ => c,
    }
}

// ---------------------------------------------------------------------------
// Parts of a line
// ---------------------------------------------------------------------------

/// `s` without white space at its start.
pub open spec fn trim_start(s: Seq<char>) -> Seq<char>
    decreases s.len(),
{
    if s.len() > 0 && is_white(s[0]) {
        trim_start(s.skip(1))
    } else {
        s
    }
}

/// `s` without white space at its end.
pub open spec fn trim_end(s: Seq<char>) -> Seq<char>
    decreases s.len(),
{
    if s.len() > 0 && is_white(s.last()) {
        trim_end(s.drop_last())
    } else {
        s
    }
}

/// `s` without white space at either end.
pub open spec fn trim(s: Seq<char>) -> Seq<char> {
    trim_end(trim_start(s))
}

/// A line without its end.
pub open spec fn without_line_end(s: Seq<char>) -> Seq<char>
    decreases s.len(),
{
    if s.len() > 0 && is_line_end(s.last()) {
        without_line_end(s.drop_last())
    } else {
        s
    }
}

/// How many characters stand before the first white space.
pub open spec fn word_len(s: Seq<char>) -> int
    decreases s.len(),
{
    if s.len() == 0 || is_white(s[0]) {
        0
    } else {
        1 + word_len(s.skip(1))
    }
}

/// The number that decimal digits spell.
pub open spec fn digits_value(s: Seq<char>) -> nat
    decreases s.len(),
{
    if s.len() == 0 {
        0
    } else {
        10 * digits_value(s.drop_last()) + (s.last() as u32 - '0' as u32) as nat
    }
}

/// `s` is decimal digits.
pub open spec fn are_digits(s: Seq<char>) -> bool {
    forall|i: int| 0 <= i < s.len() ==> '0' <= #[trigger] s[i] <= '9'
}

/// The number that `s` spells: decimal digits, perhaps behind a plus sign.
pub open spec fn number_of(s: Seq<char>) -> Option<u32> {
    let digits = if s.len() > 0 && s[0] == '+' {
        s.skip(1)
    } else {
        s
    };
    if digits.len() > 0 && are_digits(digits) && digits_value(digits) <= u32::MAX {
        Some(digits_value(digits) as u32)
    } else {
        None
    }
}

// ---------------------------------------------------------------------------
// Commands
// ---------------------------------------------------------------------------

/// A command that takes no argument.
pub open spec fn without_argument(c: CommandView, head: Seq<char>, arg: Seq<char>) -> CommandView {
    if arg.len() == 0 {
        c
    } else {
        CommandView::Unknown("/"@ + head + " does not take arguments"@)
    }
}

/// What is said of a position that is no number; `quoted` is the position in
/// quotation marks.
pub open spec fn rewind_words(quoted: Seq<char>) -> Seq<char> {
    "/rewind needs a non-negative integer, got "@ + quoted
}

/// The command `head`, in lower case, with the argument `arg`.
pub open spec fn slash_command(head: Seq<char>, arg: Seq<char>) -> CommandView {
    if head == "reset"@ || head == "clear"@ {
        without_argument(CommandView::Reset, head, arg)
    } else if head == "rewind"@ {
        match number_of(arg) {
            Some(n) => CommandView::Rewind(n),
            None => CommandView::Unknown(rewind_words(text::quoted_form(arg))),
        }
    } else if head == "ctx"@ {
        without_argument(CommandView::ShowCtx, head, arg)
    } else if head == "help"@ || head == "?"@ {
        without_argument(CommandView::Help, head, arg)
    } else if head == "exit"@ || head == "quit"@ {
        without_argument(CommandView::Exit, head, arg)
    } else {
        CommandView::Unknown("unknown command /"@ + head)
    }
}

/// What a line says.
pub open spec fn command_of(line: Seq<char>) -> CommandView {
    let stripped = without_line_end(line);
    let s = trim_start(stripped);
    if trim(stripped).len() == 0 {
        CommandView::Empty
    } else if s[0] == '/' {
        let rest = s.skip(1);
        let n = word_len(rest);
        slash_command(
            lower_all(rest.take(n)),
            if n < rest.len() {
                trim(rest.skip(n + 1))
            } else {
                Seq::empty()
            },
        )
    } else {
        CommandView::Prompt(stripped)
    }
}

/// What is said of a position that is no number.
pub fn rewind_message(quoted: &str) -> (s: String)
    ensures
        s@ == rewind_words(quoted@),
{
    and(lit("/rewind needs a non-negative integer, got "), quoted)
}

fn chars_of(s: &str) -> (v: Vec<char>)
    ensures
        v@ == s@,
{
    let mut v: Vec<char> = Vec::new();
    for c in it: s.chars()
        invariant
            it.seq() == s@,
            v@ == s@.take(it.index() as int),
    {
        v.push(c);
        assert(v@ =~= s@.take(it.index() + 1));
    }
    assert(v@ =~= s@);
    v
}

/// The characters from `from` to `to`.
fn text_of(v: &Vec<char>, from: usize, to: usize) -> (s: String)
    requires
        from <= to <= v@.len(),
    ensures
        s@ == v@.subrange(from as int, to as int),
{
    let mut s = String::new();
    let mut i: usize = from;
    while i < to
        invariant
            from <= i <= to,
            to <= v@.len(),
            s@ == v@.subrange(from as int, i as int),
        decreases to - i,
    {
        s.push(v[i]);
        i += 1;
        assert(s@ =~= v@.subrange(from as int, i as int));
    }
    s
}

fn lower_text_of(v: &Vec<char>, from: usize, to: usize) -> (s: String)
    requires
        from <= to <= v@.len(),
    ensures
        s@ == lower_all(v@.subrange(from as int, to as int)),
{
    let mut s = String::new();
    let mut i: usize = from;
    while i < to
        invariant
            from <= i <= to,
            to <= v@.len(),
            s@ == lower_all(v@.subrange(from as int, i as int)),
        decreases to - i,
    {
        s.push(to_lower(v[i]));
        i += 1;
        assert(s@ =~= lower_all(v@.subrange(from as int, i as int)));
    }
    s
}

/// Where the text from `from` to `to` starts without white space before it.
fn skip_white(v: &Vec<char>, from: usize, to: usize) -> (i: usize)
    requires
        from <= to <= v@.len(),
    ensures
        from <= i <= to,
        v@.subrange(i as int, to as int) == trim_start(v@.subrange(from as int, to as int)),
{
    let mut i: usize = from;
    while i < to && white(v[i])
        invariant
            from <= i <= to,
            to <= v@.len(),
            trim_start(v@.subrange(i as int, to as int)) == trim_start(
                v@.subrange(from as int, to as int),
            ),
        decreases to - i,
    {
        let ghost s = v@.subrange(i as int, to as int);
        assert(s.skip(1) =~= v@.subrange(i + 1, to as int));
        i += 1;
    }
    i
}

/// Where the text from `from` to `to` ends without white space behind it.
fn drop_white(v: &Vec<char>, from: usize, to: usize) -> (i: usize)
    requires
        from <= to <= v@.len(),
    ensures
        from <= i <= to,
        v@.subrange(from as int, i as int) == trim_end(v@.subrange(from as int, to as int)),
{
    let mut i: usize = to;
    while i > from && white(v[i - 1])
        invariant
            from <= i <= to,
            to <= v@.len(),
            trim_end(v@.subrange(from as int, i as int)) == trim_end(
                v@.subrange(from as int, to as int),
            ),
        decreases i,
    {
        let ghost s = v@.subrange(from as int, i as int);
        assert(s.drop_last() =~= v@.subrange(from as int, i - 1));
        i -= 1;
    }
    i
}

/// Where a line ends without the line end.
fn drop_line_end(v: &Vec<char>) -> (i: usize)
    ensures
        i <= v@.len(),
        v@.take(i as int) == without_line_end(v@),
{
    let mut i: usize = v.len();
    assert(v@.take(i as int) =~= v@);
    while i > 0 && (v[i - 1] == '\n' || v[i - 1] == '\r')
        invariant
            i <= v@.len(),
            without_line_end(v@.take(i as int)) == without_line_end(v@),
        decreases i,
    {
        assert(v@.take(i as int).drop_last() =~= v@.take(i - 1));
        i -= 1;
    }
    i
}

/// Where the first white space stands in the text from `from` to `to`.
fn word_end(v: &Vec<char>, from: usize, to: usize) -> (i: usize)
    requires
        from <= to <= v@.len(),
    ensures
        from <= i <= to,
        i - from == word_len(v@.subrange(from as int, to as int)),
{
    let mut i: usize = from;
    while i < to && !white(v[i])
        invariant
            from <= i <= to,
            to <= v@.len(),
            i - from + word_len(v@.subrange(i as int, to as int)) == word_len(
                v@.subrange(from as int, to as int),
            ),
        decreases to - i,
    {
        let ghost s = v@.subrange(i as int, to as int);
        assert(s.skip(1) =~= v@.subrange(i + 1, to as int));
        i += 1;
    }
    i
}

proof fn digits_grow(s: Seq<char>, k: int)
    requires
        are_digits(s),
        0 <= k <= s.len(),
    ensures
        digits_value(s.take(k)) <= digits_value(s),
    decreases s.len(),
{
    if k < s.len() {
        let t = s.drop_last();
        assert(are_digits(t));
        assert(t.take(k) =~= s.take(k));
        digits_grow(t, k);
        assert('0' <= s[s.len() - 1] <= '9');
    } else {
        assert(s.take(k) =~= s);
    }
}

/// The number that the text from `from` to `to` spells.
fn parse_number(v: &Vec<char>, from: usize, to: usize) -> (r: Option<u32>)
    requires
        from <= to <= v@.len(),
    ensures
        r == number_of(v@.subrange(from as int, to as int)),
{
    let ghost s = v@.subrange(from as int, to as int);
    let start: usize = if from < to && v[from] == '+' {
        from + 1
    } else {
        from
    };
    let ghost d = v@.subrange(start as int, to as int);
    assert(start == from + 1 ==> d =~= s.skip(1));
    if start == to {
        return None;
    }
    let mut n: u64 = 0;
    let mut i: usize = start;
    assert(d.take(0) =~= Seq::empty());
    while i < to
        invariant
            start <= i <= to,
            to <= v@.len(),
            d == v@.subrange(start as int, to as int),
            s == v@.subrange(from as int, to as int),
            number_of(s) == (if d.len() > 0 && are_digits(d) && digits_value(d) <= u32::MAX {
                Some(digits_value(d) as u32)
            } else {
                None
            }),
            are_digits(d.take(i - start)),
            n == digits_value(d.take(i - start)),
            n <= u32::MAX,
        decreases to - i,
    {
        let c: char = v[i];
        assert(d[i - start] == c);
        if c < '0' || c > '9' {
            return None;
        }
        proof {
            let k = i - start;
            assert(d.take(k + 1).drop_last() =~= d.take(k));
            assert(d.take(k + 1).last() == c);
            assert forall|j: int| 0 <= j < k + 1 implies '0' <= #[trigger] d.take(k + 1)[j] <= '9' by {
                if j < k {
                    assert(d.take(k)[j] == d.take(k + 1)[j]);
                }
            }
        }
        n = 10 * n + (c as u32 - 0x30) as u64;
        i += 1;
        if n > 0xFFFF_FFFF {
            proof {
                if are_digits(d) {
                    digits_grow(d, i - start);
                }
            }
            return None;
        }
    }
    assert(d.take(i - start) =~= d);
    Some(n as u32)
}

fn no_args(c: Command, head: &str, arg: &str) -> (r: Command)
    ensures
        r@ == without_argument(c@, head@, arg@),
{
    if arg.unicode_len() == 0 {
        c
    } else {
        Command::Unknown(and(and(lit("/"), head), " does not take arguments"))
    }
}

fn is_word(head: &String, word: &str) -> (r: bool)
    ensures
        r == (head@ == word@),
{
    *head == lit(word)
}

/// What a line says.
pub fn parse_command(line: &str) -> (c: Command)
    ensures
        c@ == command_of(line@),
{
    let v: Vec<char> = chars_of(line);
    let end: usize = drop_line_end(&v);
    let ghost stripped = without_line_end(line@);
    assert(v@.subrange(0, end as int) =~= stripped);
    let start: usize = skip_white(&v, 0, end);
    let stop: usize = drop_white(&v, start, end);
    if start == stop {
        return Command::Empty;
    }
    let ghost s = trim_start(stripped);
    assert(s[0] == v@[start as int]);
    if v[start] != '/' {
        return Command::Prompt(text_of(&v, 0, end));
    }
    let ghost rest = s.skip(1);
    assert(v@.subrange(start + 1, end as int) =~= rest);
    let mid: usize = word_end(&v, start + 1, end);
    let ghost n = word_len(rest);
    let head = lower_text_of(&v, start + 1, mid);
    assert(v@.subrange(start + 1, mid as int) =~= rest.take(n));
    let from: usize = if mid < end {
        skip_white(&v, mid + 1, end)
    } else {
        end
    };
    let to: usize = if mid < end {
        drop_white(&v, from, end)
    } else {
        end
    };
    let ghost tail = if n < rest.len() {
        trim(rest.skip(n + 1))
    } else {
        Seq::empty()
    };
    proof {
        if mid < end {
            assert(v@.subrange(mid + 1, end as int) =~= rest.skip(n + 1));
        }
        assert(v@.subrange(from as int, to as int) =~= tail);
    }
    let arg = text_of(&v, from, to);
    if is_word(&head, "reset") || is_word(&head, "clear") {
        no_args(Command::Reset, head.as_str(), arg.as_str())
    } else if is_word(&head, "rewind") {
        match parse_number(&v, from, to) {
            Some(n) => Command::Rewind(n),
            None => Command::Unknown(rewind_message(text::quoted(arg.as_str()).as_str())),
        }
    } else if is_word(&head, "ctx") {
        no_args(Command::ShowCtx, head.as_str(), arg.as_str())
    } else if is_word(&head, "help") || is_word(&head, "?") {
        no_args(Command::Help, head.as_str(), arg.as_str())
    } else if is_word(&head, "exit") || is_word(&head, "quit") {
        no_args(Command::Exit, head.as_str(), arg.as_str())
    } else {
        Command::Unknown(and(lit("unknown command /"), head.as_str()))
    }
}

// ---------------------------------------------------------------------------
// Turns
// ---------------------------------------------------------------------------

/// What follows in a turn.
#[derive(Clone, Copy, Debug, PartialEq, Eq, Structural)]
pub enum TurnStep {
    /// Write this token, and evaluate it.
    Emit(u32),
    /// The turn is over.
    Stop,
    /// There are no scores to choose from.
    NoLogits,
}

/// What follows in a turn that may still write `left` tokens: the token with the
/// greatest score, until that is `eos`.
pub fn next_step(logits: &[Bits32], eos: u32, left: u32) -> (r: TurnStep)
    requires
        logits@.len() <= MAX_SCORES,
    ensures
        match r {
            TurnStep::Emit(t) => left > 0 && t != eos && float::is_best(
                logits@,
                Seq::empty(),
                t as int,
            ),
            TurnStep::Stop => !float::has_no_best(logits@, Seq::empty()) && (left == 0
                || float::is_best(logits@, Seq::empty(), eos as int)),
            TurnStep::NoLogits => float::has_no_best(logits@, Seq::empty()),
        },
{
    match Session::argmax(logits) {
        None => TurnStep::NoLogits,
        Some(t) => if left == 0 || t == eos {
            TurnStep::Stop
        } else {
            TurnStep::Emit(t)
        },
    }
}

// ---------------------------------------------------------------------------
// Replies
// ---------------------------------------------------------------------------

/// What follows a line of input.
pub enum Reply {
    /// Nothing.
    Silence,
    /// Write this line.
    Say(String),
    /// Evaluate the tokens of the run, then write [`rewound_line`].
    Rewinding { before: u32, run: Run },
    /// Generate a response to the text; `add_bos` says whether the mark for the
    /// beginning of a sequence goes before it.
    Turn { text: String, add_bos: bool },
    /// Leave.
    Leave,
}

/// The line that shows the state of a session.
pub open spec fn ctx_words(v: SessionView) -> Seq<char> {
    "ctx_size="@ + text::decimal(v.ctx_size as nat) + "  pos="@ + text::decimal(v.pos as nat)
        + "  tokens="@ + text::decimal(v.tokens.len())
}

/// The line that complains of a command.
pub open spec fn complaint(msg: Seq<char>) -> Seq<char> {
    "error: "@ + msg + " \u{2014} try /help"@
}

/// `r` is the reply to a line that says `c`, and leaves a session that held
/// `before` with `after`.
pub open spec fn is_reply(r: Reply, c: CommandView, before: SessionView, after: SessionView) -> bool {
    match c {
        CommandView::Empty => r is Silence && after == before,
        CommandView::Exit => r is Leave && after == before,
        CommandView::Help => (r matches Reply::Say(t) && t@ == REPL_HELP@) && after == before,
        CommandView::ShowCtx => (r matches Reply::Say(t) && t@ == ctx_words(before)) && after
            == before,
        CommandView::Reset => (r matches Reply::Say(t) && t@ == "session reset."@) && after
            == session::invalidated(before),
        CommandView::Rewind(n) => match r {
            Reply::Rewinding { before: pos, run } => {
                &&& pos == before.pos
                &&& run.fits(after)
                &&& if n >= before.tokens.len() {
                    run is Done && after == before
                } else if n == 0 {
                    run is Done && after == session::invalidated(before)
                } else {
                    &&& run is Rewind
                    &&& after == session::begun(
                        session::invalidated(before),
                        before.tokens[0],
                        true,
                    )
                    &&& run.goal(after) == before.tokens.take(n as int)
                }
            },
            _ => false,
        },
        CommandView::Unknown(msg) => (r matches Reply::Say(t) && t@ == complaint(msg)) && after
            == before,
        CommandView::Prompt(t) => match r {
            Reply::Turn { text, add_bos } => text@ == t && add_bos == (before.tokens.len() == 0)
                && after == before,
            _ => false,
        },
    }
}

/// Does what a line of input says: all of it that needs no evaluation.
pub fn reply_to(line: &str, session: &mut Session) -> (r: Reply)
    requires
        old(session).wf(),
        session::is_idle(old(session)@),
    ensures
        final(session).wf(),
        is_reply(r, command_of(line@), old(session)@, final(session)@),
{
    match parse_command(line) {
        Command::Empty => Reply::Silence,
        Command::Exit => Reply::Leave,
        Command::Help => Reply::Say(lit(REPL_HELP)),
        Command::ShowCtx => {
            let s = and_num(lit("ctx_size="), session.ctx_size() as u64);
            let s = and_num(and(s, "  pos="), session.pos() as u64);
            Reply::Say(and_num(and(s, "  tokens="), session.tokens().len() as u64))
        },
        Command::Reset => {
            session.invalidate();
            Reply::Say(lit("session reset."))
        },
        Command::Rewind(n) => {
            let before: u32 = session.pos();
            let run = session.rewind(n);
            Reply::Rewinding { before, run }
        },
        Command::Unknown(msg) => Reply::Say(
            and(and(lit("error: "), msg.as_str()), " \u{2014} try /help"),
        ),
        Command::Prompt(text) => Reply::Turn { text, add_bos: session.tokens().len() == 0 },
    }
}

/// What is written once a session has gone back from position `before` to `now`.
pub fn rewound_line(before: u32, now: u32) -> (s: String)
    ensures
        s@ == "rewound from pos "@ + text::decimal(before as nat) + " to pos "@ + text::decimal(
            now as nat,
        ),
{
    and_num(and(and_num(lit("rewound from pos "), before as u64), " to pos "), now as u64)
}

/// Only `/reset`, `/clear` and `/rewind` touch a session: no other line changes
/// what it holds.
pub proof fn other_lines_change_nothing(
    r: Reply,
    c: CommandView,
    before: SessionView,
    after: SessionView,
)
    requires
        is_reply(r, c, before, after),
        !(c is Reset),
        !(c is Rewind),
    ensures
        after == before,
{
}

/// A command that takes no argument is never taken with one: whatever follows
/// it, the session is neither discarded nor left.
pub proof fn extra_text_is_refused(head: Seq<char>, arg: Seq<char>)
    requires
        arg.len() > 0,
        head != "rewind"@,
    ensures
        slash_command(head, arg) is Unknown,
{
}

/// Lines that start with neither white space nor a slash, and do not end in a
/// line end, are prompts as they stand.
pub proof fn plain_text_is_a_prompt(line: Seq<char>)
    requires
        line.len() > 0,
        !is_white(line[0]),
        line[0] != '/',
        !is_line_end(line.last()),
    ensures
        command_of(line) == CommandView::Prompt(line),
{
    trim_keeps_the_first(line);
}

proof fn trim_keeps_the_first(s: Seq<char>)
    requires
        s.len() > 0,
        !is_white(s[0]),
    ensures
        trim_end(s).len() > 0,
    decreases s.len(),
{
    if is_white(s.last()) {
        assert(s.len() > 1);
        assert(s.drop_last()[0] == s[0]);
        trim_keeps_the_first(s.drop_last());
    }
}

/// A number that is written in decimal is read back, with or without a plus sign
/// before it.
pub proof fn a_written_number_is_read_back(n: u32)
    ensures
        number_of(text::decimal(n as nat)) == Some(n),
        number_of(seq!['+'] + text::decimal(n as nat)) == Some(n),
{
    let d = text::decimal(n as nat);
    written_digits(n as nat);
    assert('0' <= d[0] <= '9');
    assert((seq!['+'] + d).skip(1) =~= d);
}

proof fn written_digits(n: nat)
    ensures
        text::decimal(n).len() > 0,
        are_digits(text::decimal(n)),
        digits_value(text::decimal(n)) == n,
    decreases n,
{
    let d = text::decimal(n);
    if n < 10 {
        assert(d.drop_last() =~= Seq::empty());
        assert(digits_value(Seq::empty()) == 0);
        assert(d.last() == text::digit(n as int));
    } else {
        written_digits(n / 10);
        let p = text::decimal(n / 10);
        assert(d.drop_last() =~= p);
        assert(d.last() == text::digit((n % 10) as int));
        assert forall|i: int| 0 <= i < d.len() implies '0' <= #[trigger] d[i] <= '9' by {
            if i < p.len() {
                assert(d[i] == p[i]);
            }
        }
    }
}

/// A text that holds anything but digits behind its first character, or nothing, is
/// no number.
pub proof fn other_texts_are_no_numbers(s: Seq<char>, i: int)
    requires
        0 <= i < s.len(),
        !('0' <= s[i] <= '9'),
        i > 0 || s[0] != '+',
    ensures
        number_of(s) is None,
        number_of(Seq::empty()) is None,
        number_of(seq!['+']) is None,
{
    if s[0] == '+' {
        assert(s.skip(1)[i - 1] == s[i]);
    }
    assert(seq!['+'].skip(1).len() == 0);
}

/// The 25 characters that are white space.
pub proof fn white_space_is_these(c: char)
    ensures
        is_white(c) <==> seq![
            0x09u32,
            0x0A,
            0x0B,
            0x0C,
            0x0D,
            0x20,
            0x85,
            0xA0,
            0x1680,
            0x2000,
            0x2001,
            0x2002,
            0x2003,
            0x2004,
            0x2005,
            0x2006,
            0x2007,
            0x2008,
            0x2009,
            0x200A,
            0x2028,
            0x2029,
            0x202F,
            0x205F,
            0x3000,
        ].contains(c as u32),
{
    let s = seq![
        0x09u32,
        0x0A,
        0x0B,
        0x0C,
        0x0D,
        0x20,
        0x85,
        0xA0,
        0x1680,
        0x2000,
        0x2001,
        0x2002,
        0x2003,
        0x2004,
        0x2005,
        0x2006,
        0x2007,
        0x2008,
        0x2009,
        0x200A,
        0x2028,
        0x2029,
        0x202F,
        0x205F,
        0x3000,
    ];
    let u = c as u32;
    if 0x09 <= u <= 0x0D {
        assert(s[u - 9] == u);
    } else if u == 0x20 {
        assert(s[5] == u);
    } else if u == 0x85 {
        assert(s[6] == u);
    } else if u == 0xA0 {
        assert(s[7] == u);
    } else if u == 0x1680 {
        assert(s[8] == u);
    } else if 0x2000 <= u <= 0x200A {
        assert(s[u - 0x2000 + 9] == u);
    } else if 0x2028 <= u <= 0x2029 {
        assert(s[u - 0x2028 + 20] == u);
    } else if u == 0x202F {
        assert(s[22] == u);
    } else if u == 0x205F {
        assert(s[23] == u);
    } else if u == 0x3000 {
        assert(s[24] == u);
    }
}

/// Letter `k` of the alphabet is made small; what is no capital letter stays.
pub proof fn capital_letters_are_made_small(s: Seq<char>, i: int, k: int, c: char, small: char)
    requires
        0 <= k < 26,
        c as int == 'A' as int + k,
        small as int == 'a' as int + k,
        0 <= i < s.len(),
    ensures
        lower(c) == small,
        lower(small) == small,
        lower_all(s).len() == s.len(),
        s[i] == c ==> lower_all(s)[i] == small,
        !('A' <= s[i] <= 'Z') ==> lower_all(s)[i] == s[i],
{
}

/// White space at the ends is dropped, one character after the other, and nothing
/// else.
pub proof fn only_white_ends_are_dropped(s: Seq<char>, c: char)
    ensures
        is_white(c) ==> trim_start(seq![c] + s) == trim_start(s),
        is_white(c) ==> trim_end(s.push(c)) == trim_end(s),
        !is_white(c) ==> trim_start(seq![c] + s) == seq![c] + s,
        !is_white(c) ==> trim_end(s.push(c)) == s.push(c),
        c == '\n' || c == '\r' ==> without_line_end(s.push(c)) == without_line_end(s),
        c != '\n' && c != '\r' ==> without_line_end(s.push(c)) == s.push(c),
        trim_start(Seq::empty()).len() == 0,
        trim_end(Seq::empty()).len() == 0,
        without_line_end(Seq::empty()).len() == 0,
{
    assert((seq![c] + s).skip(1) =~= s);
    assert(s.push(c).drop_last() =~= s);
}

/// Line ends behind a line do not change what it says.
pub proof fn line_ends_do_not_matter(line: Seq<char>, c: char)
    requires
        c == '\n' || c == '\r',
    ensures
        command_of(line.push(c)) == command_of(line),
{
    only_white_ends_are_dropped(line, c);
}

/// A word ends at its first white space or with the text.
pub proof fn a_word_ends_at_white_space(s: Seq<char>)
    ensures
        0 <= word_len(s) <= s.len(),
        word_len(s) < s.len() ==> is_white(s[word_len(s)]),
        forall|i: int| 0 <= i < word_len(s) ==> !is_white(#[trigger] s[i]),
    decreases s.len(),
{
    if s.len() > 0 && !is_white(s[0]) {
        let t = s.skip(1);
        a_word_ends_at_white_space(t);
        assert forall|i: int| 0 <= i < word_len(s) implies !is_white(#[trigger] s[i]) by {
            if i > 0 {
                assert(s[i] == t[i - 1]);
            }
        }
    }
}

/// A line of a slash, a word, white space and more is the command of the word in
/// small letters, with the rest as its argument.
pub proof fn a_slash_starts_a_command(head: Seq<char>, sep: char, arg: Seq<char>)
    requires
        forall|i: int| 0 <= i < head.len() ==> !is_white(#[trigger] head[i]),
        is_white(sep),
        arg.len() > 0,
        !is_line_end(arg.last()),
    ensures
        command_of(seq!['/'] + head + seq![sep] + arg) == slash_command(
            lower_all(head),
            trim(arg),
        ),
{
    let line = seq!['/'] + head + seq![sep] + arg;
    assert(line.last() == arg.last());
    assert(without_line_end(line) == line);
    assert(line[0] == '/');
    assert(trim_start(line) == line);
    trim_keeps_the_first(line);
    let rest = line.skip(1);
    assert(rest =~= head + seq![sep] + arg);
    a_word_ends_at_white_space(rest);
    let n = word_len(rest);
    if n < head.len() {
        assert(rest[n] == head[n]);
    }
    if n > head.len() {
        assert(rest[head.len() as int] == sep);
    }
    assert(rest.take(n) =~= head);
    assert(rest.skip(n + 1) =~= arg);
}

/// A line of a slash and a word alone is the command of the word in small letters,
/// without an argument.
pub proof fn a_command_may_stand_alone(head: Seq<char>)
    requires
        forall|i: int| 0 <= i < head.len() ==> !is_white(#[trigger] head[i]),
    ensures
        command_of(seq!['/'] + head) == slash_command(lower_all(head), Seq::empty()),
{
    let line = seq!['/'] + head;
    if head.len() > 0 {
        assert(line.last() == head[head.len() - 1]);
    }
    assert(!is_line_end(line.last()));
    assert(without_line_end(line) == line);
    assert(line[0] == '/');
    assert(trim_start(line) == line);
    trim_keeps_the_first(line);
    let rest = line.skip(1);
    assert(rest =~= head);
    a_word_ends_at_white_space(rest);
    let n = word_len(rest);
    if n < head.len() {
        assert(rest[n] == head[n]);
    }
    assert(rest.take(n) =~= head);
}

/// The words of the commands.
pub proof fn commands_by_their_words(n: u32)
    ensures
        slash_command("reset"@, Seq::empty()) == CommandView::Reset,
        slash_command("clear"@, Seq::empty()) == CommandView::Reset,
        slash_command("rewind"@, text::decimal(n as nat)) == CommandView::Rewind(n),
        slash_command("ctx"@, Seq::empty()) == CommandView::ShowCtx,
        slash_command("help"@, Seq::empty()) == CommandView::Help,
        slash_command("?"@, Seq::empty()) == CommandView::Help,
        slash_command("exit"@, Seq::empty()) == CommandView::Exit,
        slash_command("quit"@, Seq::empty()) == CommandView::Exit,
{
    a_written_number_is_read_back(n);
    reveal_strlit("reset");
    reveal_strlit("clear");
    reveal_strlit("rewind");
    reveal_strlit("ctx");
    reveal_strlit("help");
    reveal_strlit("?");
    reveal_strlit("exit");
    reveal_strlit("quit");
    assert("reset"@[0] == 'r' && "clear"@[0] == 'c' && "rewind"@[0] == 'r' && "ctx"@[0] == 'c');
    assert("help"@[0] == 'h' && "?"@[0] == '?' && "exit"@[0] == 'e' && "quit"@[0] == 'q');
    assert("reset"@.len() == 5 && "rewind"@.len() == 6 && "clear"@.len() == 5 && "ctx"@.len() == 3);
}

/// A line whose first character other than white space is no slash is a prompt,
/// with the white space before it, and one of white space alone is empty.
pub proof fn white_space_does_not_hide_a_prompt(blank: Seq<char>, line: Seq<char>)
    requires
        forall|i: int| 0 <= i < blank.len() ==> is_white(#[trigger] blank[i]) && !is_line_end(
            blank[i],
        ),
        line.len() > 0 ==> !is_white(line[0]) && line[0] != '/' && !is_line_end(line.last()),
    ensures
        line.len() > 0 ==> command_of(blank + line) == CommandView::Prompt(blank + line),
        line.len() == 0 ==> command_of(blank + line) == CommandView::Empty,
{
    let all = blank + line;
    if line.len() > 0 {
        assert(all.last() == line.last());
    } else if blank.len() > 0 {
        assert(all.last() == blank[blank.len() - 1]);
    }
    assert(without_line_end(all) == all);
    blank_is_skipped(blank, line);
    if line.len() > 0 {
        trim_keeps_the_first(line);
    }
}

proof fn blank_is_skipped(blank: Seq<char>, line: Seq<char>)
    requires
        forall|i: int| 0 <= i < blank.len() ==> is_white(#[trigger] blank[i]),
        line.len() > 0 ==> !is_white(line[0]),
    ensures
        trim_start(blank + line) == line,
    decreases blank.len(),
{
    if blank.len() > 0 {
        assert((blank + line)[0] == blank[0]);
        let b = blank.skip(1);
        assert forall|i: int| 0 <= i < b.len() implies is_white(#[trigger] b[i]) by {
            assert(blank[i + 1] == b[i]);
        }
        blank_is_skipped(b, line);
        assert((blank + line).skip(1) =~= b + line);
    } else {
        assert(blank + line =~= line);
    }
}

/// `/reset` leaves a session without tokens and says so; `/exit` leaves it as it is
/// and ends; a prompt is answered as it stands, with the mark for the beginning only
/// where nothing came before.
pub proof fn each_line_has_its_reply(
    r: Reply,
    c: CommandView,
    before: SessionView,
    after: SessionView,
)
    requires
        is_reply(r, c, before, after),
    ensures
        c is Reset ==> r is Say && after.tokens.len() == 0 && after.pos == 0 && after.ctx_size
            == before.ctx_size,
        c is Exit <==> r is Leave,
        c is Empty <==> r is Silence,
        c is Rewind <==> r is Rewinding,
        c is Prompt <==> r is Turn,
        c matches CommandView::Prompt(t) ==> r->text@ == t && (r->add_bos <==> before.tokens.len()
            == 0),
        c is Help ==> r->Say_0@ == REPL_HELP@,
{
}

/// `/rewind` to a position at or beyond the end does nothing, to the start it
/// discards the session, and between these it starts again with the tokens up to
/// there.
pub proof fn rewinding_keeps_the_first_tokens(
    r: Reply,
    n: u32,
    before: SessionView,
    after: SessionView,
    i: int,
)
    requires
        is_reply(r, CommandView::Rewind(n), before, after),
    ensures
        r is Rewinding,
        r->before == before.pos,
        n >= before.tokens.len() ==> r->run is Done && after == before,
        n == 0 && before.tokens.len() > 0 ==> r->run is Done && after.tokens.len() == 0,
        0 < n < before.tokens.len() ==> {
            &&& r->run is Rewind
            &&& after.tokens.len() == 1
            &&& after.tokens[0] == before.tokens[0]
            &&& after.pos == 0
            &&& r->run.goal(after).len() == n
            &&& 0 <= i < n ==> r->run.goal(after)[i] == before.tokens[i]
        },
{
}

/// The line on the state of a session names the context size, the position and the
/// number of tokens, in this order; a complaint stands between a prefix and a hint.
pub proof fn lines_name_what_they_show(v: SessionView, msg: Seq<char>)
    ensures
        ctx_words(v) == "ctx_size="@ + text::decimal(v.ctx_size as nat) + "  pos="@ + text::decimal(
            v.pos as nat,
        ) + "  tokens="@ + text::decimal(v.tokens.len()),
        complaint(msg) == "error: "@ + msg + " \u{2014} try /help"@,
        rewind_words(msg) == "/rewind needs a non-negative integer, got "@ + msg,
{
}

/// A command with text that it does not take is named in the complaint, and so is one
/// that is not known.
pub proof fn a_complaint_names_the_command(head: Seq<char>, arg: Seq<char>)
    requires
        arg.len() > 0,
    ensures
        head == "reset"@ || head == "ctx"@ || head == "help"@ || head == "exit"@ ==> slash_command(
            head,
            arg,
        ) == CommandView::Unknown("/"@ + head + " does not take arguments"@),
        !(slash_command(head, arg) is Unknown) ==> head == "rewind"@ && number_of(arg) is Some,
        slash_command("rewind"@, arg) matches CommandView::Rewind(n) ==> number_of(arg) == Some(n),
{
    reveal_strlit("reset");
    reveal_strlit("clear");
    reveal_strlit("rewind");
    reveal_strlit("ctx");
    reveal_strlit("help");
    reveal_strlit("exit");
    assert("reset"@.len() == 5 && "clear"@.len() == 5 && "rewind"@.len() == 6);
    assert("ctx"@.len() == 3 && "help"@.len() == 4 && "exit"@.len() == 4);
}

} // verus!
