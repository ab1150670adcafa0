//! Reading the command line of the counting tool.

use vstd::prelude::*;
use vstd::string::StringExecFns;

verus! {

/// Which counts were asked for.
#[derive(Debug, Clone, Copy)]
pub struct Flags {
    pub lines: bool,
    pub words: bool,
    pub bytes: bool,
    pub chars: bool,
    pub max_line_length: bool,
}

impl Flags {
    /// No count asked for.
    pub open spec fn none() -> Flags {
        Flags { lines: false, words: false, bytes: false, chars: false, max_line_length: false }
    }

    /// Whether any count was asked for.
    pub open spec fn any(self) -> bool {
        self.lines || self.words || self.bytes || self.chars || self.max_line_length
    }
}

impl Default for Flags {
    fn default() -> (flags: Flags)
        ensures
            flags == Flags::none(),
    {
        Flags { lines: false, words: false, bytes: false, chars: false, max_line_length: false }
    }
}

/// What a command line asks for.
pub enum Request {
    /// Count the named file, or standard input where none is named.
    Count { flags: Flags, filename: Option<String> },
    /// Show the usage text.
    Help,
    /// Show the version.
    Version,
    /// An argument that starts with `--` and is no known option.
    UnknownOption(String),
    /// A letter behind `-` that is no known flag.
    UnknownFlag(char),
}

/// A `Request` with its strings as sequences of characters.
pub enum RequestView {
    Count { flags: Flags, filename: Option<Seq<char>> },
    Help,
    Version,
    UnknownOption(Seq<char>),
    UnknownFlag(char),
}

impl View for Request {
    type V = RequestView;

    open spec fn view(&self) -> RequestView {
        match self {
            Request::Count { flags, filename } => RequestView::Count {
                flags: *flags,
                filename: match filename {
                    Some(name) => Some(name@),
                    None => None,
                },
            },
            Request::Help => RequestView::Help,
            Request::Version => RequestView::Version,
            Request::UnknownOption(arg) => RequestView::UnknownOption(arg@),
            Request::UnknownFlag(c) => RequestView::UnknownFlag(*c),
        }
    }
}

/// Whether `arg` starts with two dashes.
pub open spec fn is_long(arg: Seq<char>) -> bool {
    arg.len() >= 2 && arg[0] == '-' && arg[1] == '-'
}

/// Whether `arg` starts with a dash.
pub open spec fn is_short(arg: Seq<char>) -> bool {
    arg.len() >= 1 && arg[0] == '-'
}

/// `flags` with the count that the letter `c` names switched on; `None` if it names none.
pub open spec fn with_letter(flags: Flags, c: char) -> Option<Flags> {
    if c == 'l' {
        Some(Flags { lines: true, ..flags })
    } else if c == 'w' {
        Some(Flags { words: true, ..flags })
    } else if c == 'c' {
        Some(Flags { bytes: true, ..flags })
    } else if c == 'm' {
        Some(Flags { chars: true, ..flags })
    } else if c == 'L' {
        Some(Flags { max_line_length: true, ..flags })
    } else {
        None
    }
}

/// `flags` after the letters `letters`, read from the left: the first letter
/// that names no count is the error.
pub open spec fn with_letters(flags: Flags, letters: Seq<char>) -> Result<Flags, char>
    decreases letters.len(),
{
    if letters.len() == 0 {
        Ok(flags)
    } else {
        match with_letter(flags, letters[0]) {
            Some(next) => with_letters(next, letters.drop_first()),
            None => Err(letters[0]),
        }
    }
}

/// `flags` after the option `arg`, which starts with two dashes; or what the
/// option asks for instead of counting.
pub open spec fn with_option(flags: Flags, arg: Seq<char>) -> Result<Flags, RequestView> {
    if arg == "--lines"@ {
        Ok(Flags { lines: true, ..flags })
    } else if arg == "--words"@ {
        Ok(Flags { words: true, ..flags })
    } else if arg == "--bytes"@ {
        Ok(Flags { bytes: true, ..flags })
    } else if arg == "--chars"@ {
        Ok(Flags { chars: true, ..flags })
    } else if arg == "--max-line-length"@ {
        Ok(Flags { max_line_length: true, ..flags })
    } else if arg == "--help"@ {
        Err(RequestView::Help)
    } else if arg == "--version"@ {
        Err(RequestView::Version)
    } else {
        Err(RequestView::UnknownOption(arg))
    }
}

/// What the arguments `args` ask for, read from the left, given the flags and
/// the file name read so far. `--help`, `--version` and the first argument
/// that cannot be read end the reading at once; of several file names the last
/// one counts; a lone `-` changes nothing.
pub open spec fn parse_from(args: Seq<Seq<char>>, flags: Flags, filename: Option<Seq<char>>) -> RequestView
    decreases args.len(),
{
    if args.len() == 0 {
        RequestView::Count { flags, filename }
    } else if is_long(args[0]) {
        match with_option(flags, args[0]) {
            Ok(next) => parse_from(args.drop_first(), next, filename),
            Err(stop) => stop,
        }
    } else if is_short(args[0]) {
        match with_letters(flags, args[0].drop_first()) {
            Ok(next) => parse_from(args.drop_first(), next, filename),
            Err(c) => RequestView::UnknownFlag(c),
        }
    } else {
        parse_from(args.drop_first(), flags, Some(args[0]))
    }
}

/// The views of a list of strings.
pub open spec fn views(args: Seq<String>) -> Seq<Seq<char>> {
    Seq::new(args.len(), |i: int| args[i]@)
}

/// The characters of a string, as a vector.
fn chars_of(text: &str) -> (out: Vec<char>)
    ensures
        out@ == text@,
{
    let mut out: Vec<char> = Vec::new();
    for c in it: text.chars()
        invariant
            it.seq() == text@,
            out@ == text@.take(it.index() as int),
    {
        out.push(c);
        assert(out@ =~= text@.take(it.index() + 1));
    }
    assert(text@.take(text@.len() as int) =~= text@);
    out
}

/// Whether a string is, character by character, the given one.
fn is_text(arg: &String, text: &str) -> (same: bool)
    ensures
        same == (arg@ == text@),
{
    let other = String::from_str(text);
    *arg == other
}

/// Reads one option that starts with two dashes.
fn read_option(flags: Flags, arg: &String) -> (r: Result<Flags, Request>)
    ensures
        match r {
            Ok(next) => with_option(flags, arg@) == Ok::<Flags, RequestView>(next),
            Err(stop) => with_option(flags, arg@) == Err::<Flags, RequestView>(stop@),
        },
{
    let mut next = flags;
    if is_text(arg, "--lines") {
        next.lines = true;
    } else if is_text(arg, "--words") {
        next.words = true;
    } else if is_text(arg, "--bytes") {
        next.bytes = true;
    } else if is_text(arg, "--chars") {
        next.chars = true;
    } else if is_text(arg, "--max-line-length") {
        next.max_line_length = true;
    } else if is_text(arg, "--help") {
        return Err(Request::Help);
    } else if is_text(arg, "--version") {
        return Err(Request::Version);
    } else {
        return Err(Request::UnknownOption(arg.clone()));
    }
    Ok(next)
}

/// Reads the letters behind a single dash: `chars` is the whole argument.
fn read_letters(flags: Flags, chars: &Vec<char>) -> (r: Result<Flags, char>)
    requires
        chars@.len() >= 1,
    ensures
        r == with_letters(flags, chars@.drop_first()),
{
    let mut next = flags;
    let mut k: usize = 1;
    assert(chars@.drop_first() =~= chars@.skip(1));
    while k < chars.len()
        invariant
            1 <= k <= chars@.len(),
            with_letters(flags, chars@.drop_first()) == with_letters(next, chars@.skip(k as int)),
        decreases chars@.len() - k,
    {
        let c = chars[k];
        assert(chars@.skip(k as int)[0] == c);
        assert(chars@.skip(k as int).drop_first() =~= chars@.skip(k + 1));
        if c == 'l' {
            next.lines = true;
        } else if c == 'w' {
            next.words = true;
        } else if c == 'c' {
            next.bytes = true;
        } else if c == 'm' {
            next.chars = true;
        } else if c == 'L' {
            next.max_line_length = true;
        } else {
            return Err(c);
        }
        k += 1;
    }
    assert(chars@.skip(chars@.len() as int) =~= Seq::<char>::empty());
    Ok(next)
}

/// Reads the arguments that follow the program's name.
pub fn parse_args(args: &[String]) -> (request: Request)
    ensures
        request@ == parse_from(views(args@), Flags::none(), None),
{
    let mut flags = Flags::default();
    let mut filename: Option<String> = None;
    let mut i: usize = 0;
    assert(views(args@).skip(0) =~= views(args@));
    while i < args.len()
        invariant
            i <= args@.len(),
            parse_from(views(args@), Flags::none(), None) == parse_from(
                views(args@).skip(i as int),
                flags,
                match filename {
                    Some(name) => Some(name@),
                    None => None,
                },
            ),
        decreases args@.len() - i,
    {
        let arg = &args[i];
        let ghost rest = views(args@).skip(i as int);
        assert(rest[0] == arg@);
        assert(rest.drop_first() =~= views(args@).skip(i + 1));
        let chars = chars_of(arg.as_str());
        if chars.len() >= 2 && chars[0] == '-' && chars[1] == '-' {
            match read_option(flags, arg) {
                Ok(next) => {
                    flags = next;
                },
                Err(stop) => {
                    return stop;
                },
            }
        } else if chars.len() >= 1 && chars[0] == '-' {
            match read_letters(flags, &chars) {
                Ok(next) => {
                    flags = next;
                },
                Err(c) => {
                    return Request::UnknownFlag(c);
                },
            }
        } else {
            filename = Some(arg.clone());
        }
        i += 1;
    }
    assert(views(args@).skip(args@.len() as int) =~= Seq::<Seq<char>>::empty());
    Request::Count { flags, filename }
}

} // verus!
