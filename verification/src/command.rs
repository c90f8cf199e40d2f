//! The commands of the interactive shell, and how a line of input is read as
//! one of them.

use vstd::prelude::*;
use crate::text::str_eq;

verus! {

/// What the user asks of the store.
#[derive(Debug)]
pub enum Command {
    Get { key: String },
    Put { key: String, value: String, ttl: Option<u64> },
    Delete { key: String },
    List,
    GetTtl { key: String },
    Ttl { key: String },
    Exit,
    Help,
}

/// A command, with its texts as characters.
pub enum Request {
    Get { key: Seq<char> },
    Put { key: Seq<char>, value: Seq<char>, ttl: Option<u64> },
    Delete { key: Seq<char> },
    List,
    GetTtl { key: Seq<char> },
    Ttl { key: Seq<char> },
    Exit,
    Help,
}

impl View for Command {
    type V = Request;

    open spec fn view(&self) -> Request {
        match *self {
            Command::Get { key } => Request::Get { key: key@ },
            Command::Put { key, value, ttl } => Request::Put { key: key@, value: value@, ttl },
            Command::Delete { key } => Request::Delete { key: key@ },
            Command::List => Request::List,
            Command::GetTtl { key } => Request::GetTtl { key: key@ },
            Command::Ttl { key } => Request::Ttl { key: key@ },
            Command::Exit => Request::Exit,
            Command::Help => Request::Help,
        }
    }
}

/// Why a line is no command.
#[derive(Debug, Clone, Copy, PartialEq, Eq, Structural)]
pub enum ParseError {
    /// The line holds no word: nothing is to be said.
    Empty,
    /// `set` came with fewer than two arguments.
    SetUsage,
    /// The first word is no command, or has the wrong number of arguments.
    Unknown,
}

impl ParseError {
    /// What the shell tells the user, if anything.
    pub fn message(&self) -> (line: Option<&'static str>)
        ensures
            match *self {
                ParseError::Empty => line is None,
                ParseError::SetUsage => line matches Some(text) && text@
                    == "Usage: set <key> <value> [--ttl <seconds>]"@,
                ParseError::Unknown => line matches Some(text) && text@
                    == "Unknown command. Type 'help' for available commands."@,
            },
    {
        match self {
            ParseError::Empty => None,
            ParseError::SetUsage => Some("Usage: set <key> <value> [--ttl <seconds>]"),
            ParseError::Unknown => Some("Unknown command. Type 'help' for available commands."),
        }
    }
}

/// White space: the characters that Unicode marks `White_Space`.
pub open spec fn is_space(c: char) -> bool {
    let code = c as u32;
    ||| 0x09 <= code <= 0x0D
    ||| code == 0x20
    ||| code == 0x85
    ||| code == 0xA0
    ||| code == 0x1680
    ||| 0x2000 <= code <= 0x200A
    ||| code == 0x2028
    ||| code == 0x2029
    ||| code == 0x202F
    ||| code == 0x205F
    ||| code == 0x3000
}

/// The words of a line: its longest runs of characters that are not white
/// space, from left to right.
pub open spec fn words(line: Seq<char>) -> Seq<Seq<char>>
    decreases line.len(),
{
    if line.len() == 0 {
        Seq::empty()
    } else if is_space(line.last()) {
        words(line.drop_last())
    } else {
        let before = words(line.drop_last());
        if line.len() >= 2 && !is_space(line[line.len() - 2]) {
            before.drop_last().push(before.last().push(line.last()))
        } else {
            before.push(seq![line.last()])
        }
    }
}

/// A decimal digit.
pub open spec fn is_digit(c: char) -> bool {
    0x30 <= c as u32 <= 0x39
}

/// The number that a run of decimal digits stands for.
pub open spec fn digits_value(digits: Seq<char>) -> nat
    decreases digits.len(),
{
    if digits.len() == 0 {
        0
    } else {
        (digits_value(digits.drop_last()) * 10 + (digits.last() as u32 - 0x30)) as nat
    }
}

/// Every character is a decimal digit.
pub open spec fn all_digits(digits: Seq<char>) -> bool {
    forall|i: int| 0 <= i < digits.len() ==> is_digit(#[trigger] digits[i])
}

/// The digits of a word: the word without a `+` in front.
pub open spec fn unsigned(word: Seq<char>) -> Seq<char> {
    if word.len() > 0 && word[0] == '+' {
        word.skip(1)
    } else {
        word
    }
}

/// The number that a word stands for: decimal digits, at least one, after at
/// most one `+`, that stay within 64 bits.
pub open spec fn number(word: Seq<char>) -> Option<u64> {
    let digits = unsigned(word);
    if digits.len() > 0 && all_digits(digits) && digits_value(digits) <= u64::MAX {
        Some(digits_value(digits) as u64)
    } else {
        None
    }
}

/// The command that the words of a line stand for. Words after those that a
/// command takes are not looked at for `set`, `exit`, `quit` and `help`; the
/// other commands take exactly their arguments. A time-to-live that is no
/// number counts as none.
pub open spec fn request(words: Seq<Seq<char>>) -> Result<Request, ParseError> {
    if words.len() == 0 {
        Err(ParseError::Empty)
    } else if words[0] == "get"@ && words.len() == 2 {
        Ok(Request::Get { key: words[1] })
    } else if words[0] == "set"@ {
        if words.len() >= 3 {
            Ok(
                Request::Put {
                    key: words[1],
                    value: words[2],
                    ttl: if words.len() >= 5 && words[3] == "--ttl"@ {
                        number(words[4])
                    } else {
                        None
                    },
                },
            )
        } else {
            Err(ParseError::SetUsage)
        }
    } else if words[0] == "delete"@ && words.len() == 2 {
        Ok(Request::Delete { key: words[1] })
    } else if words[0] == "list"@ && words.len() == 1 {
        Ok(Request::List)
    } else if words[0] == "getttl"@ && words.len() == 2 {
        Ok(Request::GetTtl { key: words[1] })
    } else if words[0] == "ttl"@ && words.len() == 2 {
        Ok(Request::Ttl { key: words[1] })
    } else if words[0] == "exit"@ || words[0] == "quit"@ {
        Ok(Request::Exit)
    } else if words[0] == "help"@ {
        Ok(Request::Help)
    } else {
        Err(ParseError::Unknown)
    }
}

/// What reading a line gave, with its texts as characters.
pub open spec fn outcome(read: Result<Command, ParseError>) -> Result<Request, ParseError> {
    match read {
        Ok(command) => Ok(command@),
        Err(error) => Err(error),
    }
}

/// The texts of the words, as characters.
pub open spec fn texts(words: Seq<String>) -> Seq<Seq<char>> {
    Seq::new(words.len(), |i: int| words[i]@)
}

/// Whether `c` is white space.
pub fn is_space_char(c: char) -> (space: bool)
    ensures
        space == is_space(c),
{
    let code = c as u32;
    (0x09 <= code && code <= 0x0D) || code == 0x20 || code == 0x85 || code == 0xA0 || code
        == 0x1680 || (0x2000 <= code && code <= 0x200A) || code == 0x2028 || code == 0x2029
        || code == 0x202F || code == 0x205F || code == 0x3000
}

/// One more character of `line` is read.
proof fn lemma_words_step(line: Seq<char>, at: int)
    requires
        0 <= at < line.len(),
    ensures
        is_space(line[at]) ==> words(line.take(at + 1)) == words(line.take(at)),
        !is_space(line[at]) && (at == 0 || is_space(line[at - 1])) ==> words(line.take(at + 1))
            == words(line.take(at)).push(line.subrange(at, at + 1)),
        !is_space(line[at]) && at > 0 && !is_space(line[at - 1]) ==> words(line.take(at + 1))
            == words(line.take(at)).drop_last().push(words(line.take(at)).last().push(line[at])),
{
    let longer = line.take(at + 1);
    assert(longer.drop_last() =~= line.take(at));
    assert(longer.last() == line[at]);
    if at > 0 {
        assert(longer[longer.len() - 2] == line[at - 1]);
    }
    assert(line.subrange(at, at + 1) =~= seq![line[at]]);
}

/// Splits a line into its words.
pub fn split_words(line: &str) -> (found: Vec<String>)
    ensures
        texts(found@) == words(line@),
{
    let total = line.unicode_len();
    let mut found: Vec<String> = Vec::new();
    let mut start: usize = 0;
    let mut in_word = false;
    let mut i: usize = 0;
    assert(line@.take(0) =~= Seq::<char>::empty());
    assert(texts(found@) =~= Seq::<Seq<char>>::empty());
    for c in it: line.chars()
        invariant
            it.seq() == line@,
            total == line@.len(),
            i == it.index(),
            in_word ==> start < i && !is_space(line@[i - 1]) && words(line@.take(i as int))
                == texts(found@).push(line@.subrange(start as int, i as int)),
            !in_word ==> (i == 0 || is_space(line@[i - 1])) && words(line@.take(i as int))
                == texts(found@),
    {
        proof {
            lemma_words_step(line@, i as int);
        }
        if is_space_char(c) {
            if in_word {
                let word = line.substring_char(start, i).to_owned();
                let ghost earlier = found@;
                found.push(word);
                assert(texts(found@) =~= texts(earlier).push(line@.subrange(start as int, i as int)));
                in_word = false;
            }
        } else {
            if in_word {
                assert(line@.subrange(start as int, i as int).push(line@[i as int])
                    =~= line@.subrange(start as int, i + 1));
                assert(texts(found@).push(line@.subrange(start as int, i as int)).drop_last()
                    =~= texts(found@));
            } else {
                start = i;
                in_word = true;
            }
        }
        i += 1;
    }
    assert(line@.take(total as int) =~= line@);
    if in_word {
        let word = line.substring_char(start, i).to_owned();
        let ghost earlier = found@;
        found.push(word);
        assert(texts(found@) =~= texts(earlier).push(line@.subrange(start as int, i as int)));
    }
    found
}

/// A run of digits stands for no less than any of its beginnings.
proof fn lemma_digits_prefix(digits: Seq<char>, upto: int)
    requires
        0 <= upto <= digits.len(),
        all_digits(digits),
    ensures
        digits_value(digits.take(upto)) <= digits_value(digits),
    decreases digits.len(),
{
    if upto == digits.len() {
        assert(digits.take(upto) =~= digits);
    } else {
        let shorter = digits.drop_last();
        assert(shorter.take(upto) =~= digits.take(upto));
        assert forall|i: int| 0 <= i < shorter.len() implies is_digit(#[trigger] shorter[i]) by {
            assert(shorter[i] == digits[i]);
        }
        lemma_digits_prefix(shorter, upto);
        assert(is_digit(digits[digits.len() - 1]));
    }
}

/// Reads a word as a number of seconds.
pub fn parse_number(word: &str) -> (value: Option<u64>)
    ensures
        value == number(word@),
{
    let total = word.unicode_len();
    let mut i: usize = 0;
    if total > 0 && word.get_char(0) == '+' {
        i = 1;
    }
    let first = i;
    let ghost digits = unsigned(word@);
    assert(digits =~= word@.skip(first as int));
    if i == total {
        return None;
    }
    let mut value: u64 = 0;
    while i < total
        invariant
            total == word@.len(),
            first <= i <= total,
            digits == unsigned(word@),
            digits == word@.skip(first as int),
            all_digits(digits.take(i - first)),
            value == digits_value(digits.take(i - first)),
        decreases total - i,
    {
        let c = word.get_char(i);
        let code = c as u32;
        let ghost at = i - first;
        assert(digits[at] == c);
        if code < 0x30 || code > 0x39 {
            return None;
        }
        proof {
            assert(digits.take(at + 1).drop_last() =~= digits.take(at));
            assert(digits.take(at + 1).last() == c);
            assert forall|j: int| 0 <= j < at + 1 implies is_digit(
                #[trigger] digits.take(at + 1)[j],
            ) by {
                if j < at {
                    assert(digits.take(at)[j] == digits.take(at + 1)[j]);
                }
            }
            if all_digits(digits) {
                lemma_digits_prefix(digits, at + 1);
            }
        }
        let digit = (code - 0x30) as u64;
        let next = match value.checked_mul(10) {
            Some(tens) => tens.checked_add(digit),
            None => None,
        };
        match next {
            Some(more) => {
                value = more;
            },
            None => {
                return None;
            },
        }
        i += 1;
    }
    assert(digits.take(total - first) =~= digits);
    Some(value)
}

/// Reads a line of input as a command.
pub fn parse_input(input: &str) -> (read: Result<Command, ParseError>)
    ensures
        outcome(read) == request(words(input@)),
{
    let parts = split_words(input);
    let count = parts.len();
    if count == 0 {
        return Err(ParseError::Empty);
    }
    assert(forall|i: int| 0 <= i < count ==> words(input@)[i] == (#[trigger] parts@[i])@);
    let head = parts[0].as_str();
    if str_eq(head, "get") && count == 2 {
        Ok(Command::Get { key: parts[1].clone() })
    } else if str_eq(head, "set") {
        if count >= 3 {
            let ttl = if count >= 5 && str_eq(parts[3].as_str(), "--ttl") {
                parse_number(parts[4].as_str())
            } else {
                None
            };
            Ok(Command::Put { key: parts[1].clone(), value: parts[2].clone(), ttl })
        } else {
            Err(ParseError::SetUsage)
        }
    } else if str_eq(head, "delete") && count == 2 {
        Ok(Command::Delete { key: parts[1].clone() })
    } else if str_eq(head, "list") && count == 1 {
        Ok(Command::List)
    } else if str_eq(head, "getttl") && count == 2 {
        Ok(Command::GetTtl { key: parts[1].clone() })
    } else if str_eq(head, "ttl") && count == 2 {
        Ok(Command::Ttl { key: parts[1].clone() })
    } else if str_eq(head, "exit") || str_eq(head, "quit") {
        Ok(Command::Exit)
    } else if str_eq(head, "help") {
        Ok(Command::Help)
    } else {
        Err(ParseError::Unknown)
    }
}

} // verus!
