//! The player's typed line, read as a command.

use vstd::prelude::*;
use vstd::string::StrSliceExecFns;

verus! {

/// A line that opens a cell: a column name and a row.
pub const SELECT_PATTERN: &'static str = "^(\\w+)(\\d+)\\n$";

/// A line that flags a cell: `!`, a column name and a row.
pub const FLAG_PATTERN: &'static str = "^!(\\w+)(\\d+)\\n$";

/// A line that marks a cell: `?`, a column name and a row.
pub const MARK_PATTERN: &'static str = "^\\?(\\w+)(\\d+)\\n$";

/// A line that opens the surroundings of a cell: `#`, a column name and a
/// row.
pub const UNFOLD_PATTERN: &'static str = "^\\#(\\w+)(\\d+)\\n$";

/// What the player asked for.
#[derive(Clone, Debug, PartialEq, Eq)]
pub enum Command {
    Nothing,
    Select(String, u32),
    Flag(String, u32),
    Mark(String, u32),
    Unfold(String, u32),
    Exit,
}

/// A command with its column name as a sequence of characters.
pub enum Request {
    Nothing,
    Select(Seq<char>, u32),
    Flag(Seq<char>, u32),
    Mark(Seq<char>, u32),
    Unfold(Seq<char>, u32),
    Exit,
}

impl View for Command {
    type V = Request;

    open spec fn view(&self) -> Request {
        match *self {
            Command::Nothing => Request::Nothing,
            Command::Select(col, row) => Request::Select(col@, row),
            Command::Flag(col, row) => Request::Flag(col@, row),
            Command::Mark(col, row) => Request::Mark(col@, row),
            Command::Unfold(col, row) => Request::Unfold(col@, row),
            Command::Exit => Request::Exit,
        }
    }
}

/// What the first two groups of the regular expression `pattern` capture
/// in `text`: nothing if `pattern` is no regular expression, if it does
/// not match, or if one of the groups took no part in the match.
pub uninterp spec fn regex_groups(pattern: Seq<char>, text: Seq<char>) -> Option<
    (Seq<char>, Seq<char>),
>;

/// `regex::Regex::new`, `Regex::captures` and `Captures::at`: compiles
/// `pattern`, searches `text` for its leftmost match and hands out the
/// text of groups 1 and 2. The result is named, not spelled out.
#[verifier::external_body]
fn capture_pair(pattern: &str, text: &str) -> (groups: Option<(String, String)>)
    ensures
        groups_view(groups) == regex_groups(pattern@, text@),
{
    let re = regex::Regex::new(pattern).ok()?;
    let caps = re.captures(text)?;
    Some((caps.at(1)?.to_string(), caps.at(2)?.to_string()))
}

/// The captured pair as sequences of characters.
pub open spec fn groups_view(groups: Option<(String, String)>) -> Option<(Seq<char>, Seq<char>)> {
    match groups {
        Some(g) => Some((g.0@, g.1@)),
        None => None,
    }
}

/// Whether `c` is one of the digits `0` to `9`.
pub open spec fn is_digit(c: char) -> bool {
    '0' as u32 <= c as u32 <= '9' as u32
}

/// The value of the digit `c`.
pub open spec fn digit_value(c: char) -> int {
    c as u32 - '0' as u32
}

/// The number that the digits of `s` write in base ten.
pub open spec fn decimal(s: Seq<char>) -> int
    decreases s.len(),
{
    if s.len() == 0 {
        0
    } else {
        decimal(s.drop_last()) * 10 + digit_value(s.last())
    }
}

/// Every character of `s` is a digit.
pub open spec fn all_digits(s: Seq<char>) -> bool {
    forall|i: int| 0 <= i < s.len() ==> is_digit(#[trigger] s[i])
}

/// The row that `s` writes: `s` is one or more digits `0` to `9` whose
/// number fits in 32 bits.
pub open spec fn row_of(s: Seq<char>) -> Option<u32> {
    if s.len() > 0 && all_digits(s) && decimal(s) <= u32::MAX {
        Some(decimal(s) as u32)
    } else {
        None
    }
}

/// The line that ends the game.
pub open spec fn quit_line() -> Seq<char> {
    seq!['q', '\n']
}

/// The request of one verb for a column and a row. The verbs are numbered
/// in the order in which the patterns are tried: open, flag, mark, open
/// around.
pub open spec fn request_of(verb: int, col: Seq<char>, row: u32) -> Request {
    if verb == 0 {
        Request::Select(col, row)
    } else if verb == 1 {
        Request::Flag(col, row)
    } else if verb == 2 {
        Request::Mark(col, row)
    } else {
        Request::Unfold(col, row)
    }
}

/// The request that a captured column and row make, if the row is one.
pub open spec fn request_from(verb: int, groups: (Seq<char>, Seq<char>)) -> Request {
    match row_of(groups.1) {
        Some(row) => request_of(verb, groups.0, row),
        None => Request::Nothing,
    }
}

/// The request that the line `input` makes, given what each of the four
/// patterns captured in it. The quit line comes first, then the first
/// pattern that matched, in the order open, flag, mark, open around.
pub open spec fn request_for(
    input: Seq<char>,
    select: Option<(Seq<char>, Seq<char>)>,
    flag: Option<(Seq<char>, Seq<char>)>,
    mark: Option<(Seq<char>, Seq<char>)>,
    unfold: Option<(Seq<char>, Seq<char>)>,
) -> Request {
    if input == quit_line() {
        Request::Exit
    } else if select is Some {
        request_from(0, select->0)
    } else if flag is Some {
        request_from(1, flag->0)
    } else if mark is Some {
        request_from(2, mark->0)
    } else if unfold is Some {
        request_from(3, unfold->0)
    } else {
        Request::Nothing
    }
}

/// A digit string's number is at least the number of each of its prefixes.
proof fn lemma_decimal_grows(s: Seq<char>, n: int)
    requires
        all_digits(s),
        0 <= n <= s.len(),
    ensures
        0 <= decimal(s.take(n)) <= decimal(s),
    decreases s.len(),
{
    if n == s.len() {
        assert(s.take(n) =~= s);
        if s.len() > 0 {
            lemma_decimal_grows(s.drop_last(), n - 1);
        }
    } else {
        assert(all_digits(s.drop_last())) by {
            assert forall|i: int| 0 <= i < s.drop_last().len() implies is_digit(
                #[trigger] s.drop_last()[i],
            ) by {
                assert(s.drop_last()[i] == s[i]);
            }
        }
        lemma_decimal_grows(s.drop_last(), n);
        assert(s.drop_last().take(n) =~= s.take(n));
        assert(is_digit(s[s.len() - 1]));
    }
}

/// Reads a row: one or more digits `0` to `9`, at most `u32::MAX`.
pub fn parse_row(digits: &str) -> (row: Option<u32>)
    ensures
        row == row_of(digits@),
{
    let n = digits.unicode_len();
    if n == 0 {
        return None;
    }
    let mut value: u64 = 0;
    let mut i: usize = 0;
    while i < n
        invariant
            i <= n,
            n == digits@.len(),
            value == decimal(digits@.take(i as int)),
            value <= u32::MAX,
            all_digits(digits@.take(i as int)),
        decreases n - i,
    {
        let code: u32 = digits.get_char(i) as u32;
        if code < '0' as u32 || code > '9' as u32 {
            assert(!is_digit(digits@[i as int]));
            return None;
        }
        let next: u64 = value * 10 + (code - '0' as u32) as u64;
        proof {
            assert(digits@.take(i + 1).drop_last() =~= digits@.take(i as int));
            assert(digits@.take(i + 1).last() == digits@[i as int]);
            assert forall|j: int| 0 <= j < i + 1 implies is_digit(
                #[trigger] digits@.take(i + 1)[j],
            ) by {
                if j < i {
                    assert(digits@.take(i as int)[j] == digits@.take(i + 1)[j]);
                }
            }
        }
        if next > u32::MAX as u64 {
            proof {
                if all_digits(digits@) {
                    lemma_decimal_grows(digits@, i + 1);
                }
            }
            return None;
        }
        value = next;
        i = i + 1;
    }
    assert(digits@.take(n as int) =~= digits@);
    Some(value as u32)
}

/// The command of one verb for a captured column and row.
fn command_from(verb: u8, groups: (String, String)) -> (command: Command)
    requires
        verb < 4,
    ensures
        command@ == request_from(verb as int, (groups.0@, groups.1@)),
{
    let (col, digits) = groups;
    match parse_row(digits.as_str()) {
        Some(row) => {
            if verb == 0 {
                Command::Select(col, row)
            } else if verb == 1 {
                Command::Flag(col, row)
            } else if verb == 2 {
                Command::Mark(col, row)
            } else {
                Command::Unfold(col, row)
            }
        },
        None => Command::Nothing,
    }
}

/// Whether `input` is the line that ends the game.
fn is_quit(input: &str) -> (quit: bool)
    ensures
        quit == (input@ == quit_line()),
{
    if input.unicode_len() == 2 {
        let quit = input.get_char(0) == 'q' && input.get_char(1) == '\n';
        assert(quit ==> input@ =~= quit_line());
        quit
    } else {
        false
    }
}

/// Decides the command of the line `input` from what the four patterns
/// captured in it.
pub fn decide(
    input: &str,
    select: Option<(String, String)>,
    flag: Option<(String, String)>,
    mark: Option<(String, String)>,
    unfold: Option<(String, String)>,
) -> (command: Command)
    ensures
        command@ == request_for(
            input@,
            groups_view(select),
            groups_view(flag),
            groups_view(mark),
            groups_view(unfold),
        ),
{
    if is_quit(input) {
        Command::Exit
    } else if let Some(groups) = select {
        command_from(0, groups)
    } else if let Some(groups) = flag {
        command_from(1, groups)
    } else if let Some(groups) = mark {
        command_from(2, groups)
    } else if let Some(groups) = unfold {
        command_from(3, groups)
    } else {
        Command::Nothing
    }
}

/// Reads the player's line as a command.
pub fn create_move(input: String) -> (command: Command)
    ensures
        command@ == request_for(
            input@,
            regex_groups(SELECT_PATTERN@, input@),
            regex_groups(FLAG_PATTERN@, input@),
            regex_groups(MARK_PATTERN@, input@),
            regex_groups(UNFOLD_PATTERN@, input@),
        ),
{
    let line = input.as_str();
    let select = capture_pair(SELECT_PATTERN, line);
    let flag = capture_pair(FLAG_PATTERN, line);
    let mark = capture_pair(MARK_PATTERN, line);
    let unfold = capture_pair(UNFOLD_PATTERN, line);
    decide(line, select, flag, mark, unfold)
}

} // verus!
