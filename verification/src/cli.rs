use vstd::prelude::*;
use vstd::std_specs::iter::IteratorSpec;
use crate::text::same_text;

verus! {

/// A parsed command line.
#[derive(Debug, PartialEq)]
pub struct Cli {
    pub command: Commands,
}

/// The commands of `lic`.
#[derive(Debug, PartialEq)]
pub enum Commands {
    /// Print the text of a license.
    New(OptionsNew),
    /// Write the license that the project's manifest declares.
    Auto(OptionsAuto),
    /// Search the license list.
    Search(OptionsSearch),
}

/// The options of `lic new`.
#[derive(Debug, PartialEq)]
pub struct OptionsNew {
    pub id: String,
    pub width: Option<usize>,
}

/// The options of `lic auto`.
#[derive(Debug, PartialEq)]
pub struct OptionsAuto {
    pub width: Option<usize>,
    pub force: bool,
}

/// The options of `lic search`.
#[derive(Debug, PartialEq)]
pub struct OptionsSearch {
    pub id: String,
    pub number: usize,
}

/// How many licenses `lic search` lists where `--number` is not given.
pub const DEFAULT_NUMBER: usize = 20;

/// A command and its options, as mathematical values.
pub enum CommandData {
    New { id: Seq<char>, width: Option<usize> },
    Auto { width: Option<usize>, force: bool },
    Search { id: Seq<char>, number: usize },
}

impl View for Commands {
    type V = CommandData;

    open spec fn view(&self) -> CommandData {
        match *self {
            Commands::New(options) => CommandData::New { id: options.id@, width: options.width },
            Commands::Auto(options) => CommandData::Auto {
                width: options.width,
                force: options.force,
            },
            Commands::Search(options) => CommandData::Search {
                id: options.id@,
                number: options.number,
            },
        }
    }
}

impl View for Cli {
    type V = CommandData;

    open spec fn view(&self) -> CommandData {
        self.command@
    }
}

impl OptionsAuto {
    /// Whether the license file may be written: always where there is none
    /// yet, and over an old one only with `--force`.
    pub fn may_write(&self, present: bool) -> (allowed: bool)
        ensures
            allowed == (!present || self.force),
    {
        !present || self.force
    }
}

/// Whether `c` is a decimal digit.
pub open spec fn is_digit(c: char) -> bool {
    '0' <= c <= '9'
}

/// The number that a string of decimal digits stands for.
pub open spec fn decimal_value(s: Seq<char>) -> nat
    decreases s.len(),
{
    if s.len() == 0 {
        0
    } else {
        decimal_value(s.drop_last()) * 10 + (s.last() as u32 - '0' as u32) as nat
    }
}

/// Whether `s` is a number that an option takes: decimal digits, at least
/// one, with a value that a `usize` holds.
pub open spec fn is_number(s: Seq<char>) -> bool {
    &&& s.len() > 0
    &&& forall|i: int| 0 <= i < s.len() ==> is_digit(s[i])
    &&& decimal_value(s) <= usize::MAX
}

/// A string of digits stands for no less than any of its prefixes.
proof fn lemma_decimal_value_grows(s: Seq<char>, n: int)
    requires
        0 <= n <= s.len(),
        forall|i: int| 0 <= i < s.len() ==> is_digit(s[i]),
    ensures
        decimal_value(s.take(n)) <= decimal_value(s),
    decreases s.len() - n,
{
    if n == s.len() {
        assert(s.take(n) =~= s);
    } else {
        lemma_decimal_value_grows(s, n + 1);
        assert(s.take(n + 1).drop_last() =~= s.take(n));
    }
}

/// Reads a number: `Some` of its value where `text` is one, else `None`.
pub fn parse_number(text: &str) -> (number: Option<usize>)
    ensures
        number == if is_number(text@) {
            Some(decimal_value(text@) as usize)
        } else {
            None
        },
{
    broadcast use vstd::string::group_string_axioms;

    let mut digits = text.chars();
    let mut value: usize = 0;
    let mut any = false;
    let ghost mut i: int = 0;
    assert(text@.take(0) =~= Seq::<char>::empty());
    assert(text@.skip(0) =~= text@);
    loop
        invariant
            digits.obeys_prophetic_iter_laws(),
            digits.decrease() is Some,
            0 <= i <= text@.len(),
            digits.remaining() == text@.skip(i),
            any == (i > 0),
            forall|j: int| 0 <= j < i ==> is_digit(text@[j]),
            value == decimal_value(text@.take(i)),
        decreases digits.decrease()->0,
    {
        match digits.next() {
            None => {
                assert(text@.take(i) =~= text@);
                return if any {
                    Some(value)
                } else {
                    None
                };
            },
            Some(c) => {
                assert(c == text@[i]);
                if c < '0' || c > '9' {
                    return None;
                }
                let digit: usize = (c as u32 - '0' as u32) as usize;
                assert(text@.take(i + 1).drop_last() =~= text@.take(i));
                assert(text@.skip(i).drop_first() =~= text@.skip(i + 1));
                if value > (usize::MAX - digit) / 10 {
                    proof {
                        if forall|j: int| 0 <= j < text@.len() ==> is_digit(text@[j]) {
                            lemma_decimal_value_grows(text@, i + 1);
                        }
                    }
                    return None;
                }
                value = value * 10 + digit;
                any = true;
                proof {
                    i = i + 1;
                }
            },
        }
    }
}

/// What has been read of the arguments of a command.
pub struct Scan {
    pub id: Option<Seq<char>>,
    pub width: Option<usize>,
    pub number: Option<usize>,
    pub force: bool,
}

/// The scan that has read nothing yet.
pub open spec fn nothing_read() -> Scan {
    Scan { id: None, width: None, number: None, force: false }
}

/// Whether `token` stands for itself: it is not empty and does not begin
/// with a hyphen.
pub open spec fn is_plain(token: Seq<char>) -> bool {
    token.len() > 0 && token[0] != '-'
}

/// Whether `token` stands for itself.
fn plain(token: &str) -> (itself: bool)
    ensures
        itself == is_plain(token@),
{
    broadcast use vstd::string::group_string_axioms;

    match token.chars().next() {
        Some(first) => first != '-',
        None => false,
    }
}

/// Reads the arguments from position `at` on. An argument is `--width` or
/// `-w`, followed by a number; `--number` or `-n`, followed by a number;
/// `--force` or `-f`; or a plain argument, the identifier. Each may occur
/// once. The result is `None` where the arguments are not of this form.
pub open spec fn scan(tokens: Seq<Seq<char>>, at: int, found: Scan) -> Option<Scan>
    decreases tokens.len() - at,
{
    if at >= tokens.len() {
        Some(found)
    } else if tokens[at] == "--width"@ || tokens[at] == "-w"@ {
        if found.width is None && at + 1 < tokens.len() && is_number(tokens[at + 1]) {
            let width = Some(decimal_value(tokens[at + 1]) as usize);
            scan(tokens, at + 2, Scan { width, ..found })
        } else {
            None
        }
    } else if tokens[at] == "--number"@ || tokens[at] == "-n"@ {
        if found.number is None && at + 1 < tokens.len() && is_number(tokens[at + 1]) {
            let number = Some(decimal_value(tokens[at + 1]) as usize);
            scan(tokens, at + 2, Scan { number, ..found })
        } else {
            None
        }
    } else if tokens[at] == "--force"@ || tokens[at] == "-f"@ {
        if !found.force {
            scan(tokens, at + 1, Scan { force: true, ..found })
        } else {
            None
        }
    } else if is_plain(tokens[at]) && found.id is None {
        scan(tokens, at + 1, Scan { id: Some(tokens[at]), ..found })
    } else {
        None
    }
}

/// The command that an argument vector stands for. The first argument names
/// the program, the second the command, and the rest are the command's
/// arguments: `new` takes an identifier and may take a width, `auto` takes
/// no identifier and may take a width and `--force`, `search` takes an
/// identifier and may take a number. The result is `None` for every other
/// vector.
pub open spec fn command_of(args: Seq<Seq<char>>) -> Option<CommandData> {
    if args.len() < 2 {
        None
    } else {
        match scan(args, 2, nothing_read()) {
            Some(found) => {
                if args[1] == "new"@ {
                    match found.id {
                        Some(id) if found.number is None && !found.force => Some(
                            CommandData::New { id, width: found.width },
                        ),
                        _ => None,
                    }
                } else if args[1] == "auto"@ {
                    if found.id is None && found.number is None {
                        Some(CommandData::Auto { width: found.width, force: found.force })
                    } else {
                        None
                    }
                } else if args[1] == "search"@ {
                    match found.id {
                        Some(id) if found.width is None && !found.force => Some(
                            CommandData::Search {
                                id,
                                number: match found.number {
                                    Some(number) => number,
                                    None => DEFAULT_NUMBER,
                                },
                            },
                        ),
                        _ => None,
                    }
                } else {
                    None
                }
            },
            None => None,
        }
    }
}

/// The arguments of a vector, each by its characters.
pub open spec fn texts(args: Seq<&str>) -> Seq<Seq<char>> {
    args.map_values(|s: &str| s@)
}

impl Cli {
    /// Parses an argument vector: `Some` of the command that it stands for,
    /// `None` where it stands for none.
    pub fn parse_from(args: &[&str]) -> (parsed: Option<Cli>)
        ensures
            match command_of(texts(args@)) {
                Some(command) => parsed matches Some(cli) && cli@ == command,
                None => parsed is None,
            },
    {
        let ghost tokens = texts(args@);
        if args.len() < 2 {
            return None;
        }
        let mut id: Option<String> = None;
        let mut width: Option<usize> = None;
        let mut number: Option<usize> = None;
        let mut force = false;
        let mut i: usize = 2;
        while i < args.len()
            invariant
                tokens == texts(args@),
                2 <= i <= args.len(),
                scan(tokens, 2, nothing_read()) == scan(
                    tokens,
                    i as int,
                    Scan {
                        id: match id {
                            Some(text) => Some(text@),
                            None => None,
                        },
                        width,
                        number,
                        force,
                    },
                ),
            decreases args.len() - i,
        {
            let token = args[i];
            assert(tokens[i as int] == token@);
            if same_text(token, "--width") || same_text(token, "-w") {
                if width.is_some() || i + 1 >= args.len() {
                    return None;
                }
                assert(tokens[i + 1] == args[i + 1]@);
                match parse_number(args[i + 1]) {
                    Some(value) => {
                        width = Some(value);
                    },
                    None => {
                        return None;
                    },
                }
                i += 2;
            } else if same_text(token, "--number") || same_text(token, "-n") {
                if number.is_some() || i + 1 >= args.len() {
                    return None;
                }
                assert(tokens[i + 1] == args[i + 1]@);
                match parse_number(args[i + 1]) {
                    Some(value) => {
                        number = Some(value);
                    },
                    None => {
                        return None;
                    },
                }
                i += 2;
            } else if same_text(token, "--force") || same_text(token, "-f") {
                if force {
                    return None;
                }
                force = true;
                i += 1;
            } else {
                if id.is_some() || !plain(token) {
                    return None;
                }
                id = Some(token.to_owned());
                i += 1;
            }
        }
        let name = args[1];
        assert(tokens[1] == name@);
        if same_text(name, "new") {
            match id {
                Some(id) => {
                    if number.is_some() || force {
                        None
                    } else {
                        Some(Cli { command: Commands::New(OptionsNew { id, width }) })
                    }
                },
                None => None,
            }
        } else if same_text(name, "auto") {
            if id.is_some() || number.is_some() {
                None
            } else {
                Some(Cli { command: Commands::Auto(OptionsAuto { width, force }) })
            }
        } else if same_text(name, "search") {
            match id {
                Some(id) => {
                    if width.is_some() || force {
                        None
                    } else {
                        let number = match number {
                            Some(number) => number,
                            None => DEFAULT_NUMBER,
                        };
                        Some(Cli { command: Commands::Search(OptionsSearch { id, number }) })
                    }
                },
                None => None,
            }
        } else {
            None
        }
    }
}

} // verus!
