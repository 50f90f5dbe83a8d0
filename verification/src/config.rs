//! The configuration of one rendering: the two display symbols and the text,
//! read from the command line's tokens.

use vstd::prelude::*;
use vstd::string::*;

verus! {

/// Why a command line gives no configuration.
#[derive(Clone, Copy, Debug, PartialEq, Eq, Structural)]
pub enum ConfigError {
    /// A flag is missing, or there is no text to draw.
    NotEnoughArguments,
    /// A symbol does not start and end with a colon.
    MalformedSymbol,
    /// A flag is the last token, so its symbol is absent.
    SymbolNotProvided,
}

impl ConfigError {
    /// The words of the message.
    pub open spec fn text(self) -> Seq<char> {
        match self {
            ConfigError::NotEnoughArguments => "Not enough arguments!"@,
            ConfigError::MalformedSymbol => "Emoji should start with ':' and end with ':'!"@,
            ConfigError::SymbolNotProvided => "Emoji was not provided!"@,
        }
    }

    /// The message shown for this error.
    pub fn message(&self) -> (m: &'static str)
        ensures
            m@ == self.text(),
    {
        match self {
            ConfigError::NotEnoughArguments => "Not enough arguments!",
            ConfigError::MalformedSymbol => "Emoji should start with ':' and end with ':'!",
            ConfigError::SymbolNotProvided => "Emoji was not provided!",
        }
    }
}

/// The flag that introduces the symbol for empty cells.
pub open spec fn space_flag() -> Seq<char> {
    "-sp"@
}

/// The flag that introduces the symbol for filled cells.
pub open spec fn stroke_flag() -> Seq<char> {
    "-st"@
}

/// A symbol is wrapped when its first and its last character are colons. A
/// single colon is both.
pub open spec fn is_wrapped(symbol: Seq<char>) -> bool {
    symbol.len() > 0 && symbol[0] == ':' && symbol[symbol.len() - 1] == ':'
}

/// The verdict on the token that follows a flag, if there is one.
pub open spec fn check_symbol(symbol: Option<Seq<char>>) -> Result<(), ConfigError> {
    match symbol {
        None => Err(ConfigError::SymbolNotProvided),
        Some(s) => if is_wrapped(s) {
            Ok(())
        } else {
            Err(ConfigError::MalformedSymbol)
        },
    }
}

/// The characters of an optional string.
pub open spec fn symbol_view(symbol: Option<String>) -> Option<Seq<char>> {
    match symbol {
        None => None,
        Some(s) => Some(s@),
    }
}

/// The characters of each string of a list.
pub open spec fn texts(list: Seq<String>) -> Seq<Seq<char>> {
    Seq::new(list.len(), |i: int| list[i]@)
}

/// The words with one space between neighbours.
pub open spec fn join_words(words: Seq<Seq<char>>) -> Seq<char>
    decreases words.len(),
{
    if words.len() == 0 {
        Seq::empty()
    } else if words.len() == 1 {
        words[0]
    } else {
        join_words(words.drop_last()) + seq![' '] + words.last()
    }
}

/// What a left-to-right pass over the tokens has gathered.
pub struct Gathered {
    pub space: Option<Seq<char>>,
    pub stroke: Option<Seq<char>>,
    pub words: Seq<Seq<char>>,
}

/// The token after position `i`, if any.
pub open spec fn value_after(args: Seq<Seq<char>>, i: int) -> Option<Seq<char>> {
    if i + 1 < args.len() {
        Some(args[i + 1])
    } else {
        None
    }
}

/// Reads the tokens from position `i` on. A flag takes the next token as its
/// symbol, whatever that token is, and the symbol must be wrapped; a later
/// occurrence of a flag replaces an earlier one. Every other token is a word
/// of the text.
pub open spec fn gather(args: Seq<Seq<char>>, i: int, seen: Gathered) -> Result<
    Gathered,
    ConfigError,
>
    decreases args.len() - i,
{
    if i < 0 || i >= args.len() {
        Ok(seen)
    } else if args[i] == space_flag() {
        match check_symbol(value_after(args, i)) {
            Err(e) => Err(e),
            Ok(_) => gather(args, i + 2, Gathered { space: value_after(args, i), ..seen }),
        }
    } else if args[i] == stroke_flag() {
        match check_symbol(value_after(args, i)) {
            Err(e) => Err(e),
            Ok(_) => gather(args, i + 2, Gathered { stroke: value_after(args, i), ..seen }),
        }
    } else {
        gather(args, i + 1, Gathered { words: seen.words.push(args[i]), ..seen })
    }
}

/// A configuration as plain values.
pub struct ConfigView {
    pub space_emoji: Seq<char>,
    pub stroke_emoji: Seq<char>,
    pub input: Seq<char>,
}

/// The configuration that a pass has gathered, when nothing is missing: both
/// symbols, and a text that is not empty.
pub open spec fn complete(seen: Gathered) -> Result<ConfigView, ConfigError> {
    if seen.space is Some && seen.stroke is Some && seen.words.len() > 0 && join_words(
        seen.words,
    ).len() > 0 {
        Ok(
            ConfigView {
                space_emoji: seen.space.unwrap(),
                stroke_emoji: seen.stroke.unwrap(),
                input: join_words(seen.words),
            },
        )
    } else {
        Err(ConfigError::NotEnoughArguments)
    }
}

/// The meaning of a command line. The first token is the program's own name
/// and is passed over.
pub open spec fn parse(args: Seq<Seq<char>>) -> Result<ConfigView, ConfigError> {
    match gather(args, 1, Gathered { space: None, stroke: None, words: Seq::empty() }) {
        Err(e) => Err(e),
        Ok(seen) => complete(seen),
    }
}

/// Whether a token is one of the two flags.
pub open spec fn is_flag(token: Seq<char>) -> bool {
    token == space_flag() || token == stroke_flag()
}

/// Whether a pass that stands at position `from` comes to stand at position
/// `i`: no flag in between has taken `i` as its symbol, and none has failed.
pub open spec fn comes_to(args: Seq<Seq<char>>, from: int, i: int) -> bool
    decreases i - from,
{
    if from >= i {
        from == i
    } else if from < 0 || from >= args.len() {
        false
    } else if is_flag(args[from]) {
        check_symbol(value_after(args, from)) is Ok && from + 2 <= i && comes_to(
            args,
            from + 2,
            i,
        )
    } else {
        comes_to(args, from + 1, i)
    }
}

/// A pass that comes to a flag whose symbol is absent or not wrapped fails
/// there, with that symbol's verdict, whatever it has gathered.
pub proof fn lemma_gather_fails_at(args: Seq<Seq<char>>, from: int, i: int, seen: Gathered)
    requires
        0 <= from <= i < args.len(),
        comes_to(args, from, i),
        is_flag(args[i]),
        check_symbol(value_after(args, i)) is Err,
    ensures
        gather(args, from, seen) == Err::<Gathered, ConfigError>(
            check_symbol(value_after(args, i))->Err_0,
        ),
    decreases i - from,
{
    if from < i {
        if args[from] == space_flag() {
            lemma_gather_fails_at(
                args,
                from + 2,
                i,
                Gathered { space: value_after(args, from), ..seen },
            );
        } else if args[from] == stroke_flag() {
            lemma_gather_fails_at(
                args,
                from + 2,
                i,
                Gathered { stroke: value_after(args, from), ..seen },
            );
        } else {
            lemma_gather_fails_at(
                args,
                from + 1,
                i,
                Gathered { words: seen.words.push(args[from]), ..seen },
            );
        }
    }
}

/// A command line in which a flag is followed by a token that does not start
/// and end with a colon, or by none, has no configuration: parsing fails with
/// the verdict on the first such flag that the pass comes to.
pub proof fn lemma_bad_symbol_rejected(args: Seq<Seq<char>>, i: int)
    requires
        1 <= i < args.len(),
        comes_to(args, 1, i),
        is_flag(args[i]),
        !(value_after(args, i) matches Some(s) && is_wrapped(s)),
    ensures
        value_after(args, i) is Some ==> parse(args) == Err::<ConfigView, ConfigError>(
            ConfigError::MalformedSymbol,
        ),
        value_after(args, i) is None ==> parse(args) == Err::<ConfigView, ConfigError>(
            ConfigError::SymbolNotProvided,
        ),
{
    lemma_gather_fails_at(
        args,
        1,
        i,
        Gathered { space: None, stroke: None, words: Seq::empty() },
    );
}

/// A pass keeps its symbols wrapped: where those gathered before are, those
/// gathered at the end are too.
pub proof fn lemma_gather_keeps_wrapped(args: Seq<Seq<char>>, from: int, seen: Gathered)
    requires
        seen.space matches Some(s) ==> is_wrapped(s),
        seen.stroke matches Some(s) ==> is_wrapped(s),
    ensures
        gather(args, from, seen) matches Ok(end) ==> {
            &&& end.space matches Some(s) ==> is_wrapped(s)
            &&& end.stroke matches Some(s) ==> is_wrapped(s)
        },
    decreases args.len() - from,
{
    if 0 <= from < args.len() {
        if args[from] == space_flag() {
            if check_symbol(value_after(args, from)) is Ok {
                lemma_gather_keeps_wrapped(
                    args,
                    from + 2,
                    Gathered { space: value_after(args, from), ..seen },
                );
            }
        } else if args[from] == stroke_flag() {
            if check_symbol(value_after(args, from)) is Ok {
                lemma_gather_keeps_wrapped(
                    args,
                    from + 2,
                    Gathered { stroke: value_after(args, from), ..seen },
                );
            }
        } else {
            lemma_gather_keeps_wrapped(
                args,
                from + 1,
                Gathered { words: seen.words.push(args[from]), ..seen },
            );
        }
    }
}

/// Every configuration that parsing gives has both symbols wrapped in colons
/// and a text that is not empty.
pub proof fn lemma_parsed_is_valid(args: Seq<Seq<char>>)
    ensures
        parse(args) matches Ok(v) ==> {
            &&& is_wrapped(v.space_emoji)
            &&& is_wrapped(v.stroke_emoji)
            &&& v.input.len() > 0
        },
{
    lemma_gather_keeps_wrapped(
        args,
        1,
        Gathered { space: None, stroke: None, words: Seq::empty() },
    );
}

/// The two display symbols and the text to draw.
pub struct Config {
    space_emoji: String,
    stroke_emoji: String,
    input: String,
}

impl View for Config {
    type V = ConfigView;

    closed spec fn view(&self) -> ConfigView {
        ConfigView {
            space_emoji: self.space_emoji@,
            stroke_emoji: self.stroke_emoji@,
            input: self.input@,
        }
    }
}

impl Config {
    /// Both symbols are wrapped in colons and the text is not empty.
    pub open spec fn wf(&self) -> bool {
        &&& is_wrapped(self@.space_emoji)
        &&& is_wrapped(self@.stroke_emoji)
        &&& self@.input.len() > 0
    }

    /// Reads a configuration from the tokens of a command line, the program's
    /// name first.
    pub fn new(args: Vec<String>) -> (r: Result<Config, ConfigError>)
        ensures
            match parse(texts(args@)) {
                Ok(v) => r is Ok && r.unwrap()@ == v,
                Err(e) => r == Err::<Config, ConfigError>(e),
            },
            r matches Ok(c) ==> c.wf(),
    {
        let ghost all = texts(args@);
        let mut space_emoji: Option<String> = None;
        let mut stroke_emoji: Option<String> = None;
        let mut input: Vec<String> = Vec::new();
        let mut i: usize = 1;
        assert(texts(input@) =~= Seq::<Seq<char>>::empty());
        while i < args.len()
            invariant
                1 <= i,
                all == texts(args@),
                gather(all, 1, Gathered { space: None, stroke: None, words: Seq::empty() })
                    == gather(
                    all,
                    i as int,
                    Gathered {
                        space: symbol_view(space_emoji),
                        stroke: symbol_view(stroke_emoji),
                        words: texts(input@),
                    },
                ),
                symbol_view(space_emoji) matches Some(s) ==> is_wrapped(s),
                symbol_view(stroke_emoji) matches Some(s) ==> is_wrapped(s),
            decreases args.len() - i,
        {
            let is_space = same_text(&args[i], "-sp");
            let is_stroke = same_text(&args[i], "-st");
            if is_space || is_stroke {
                let value: Option<String> = if i + 1 < args.len() {
                    Some(args[i + 1].clone())
                } else {
                    None
                };
                assert(symbol_view(value) == value_after(all, i as int));
                match validate_emoji(&value) {
                    Err(e) => {
                        return Err(e);
                    },
                    Ok(_) => {},
                }
                if is_space {
                    space_emoji = value;
                } else {
                    stroke_emoji = value;
                }
                i += 2;
            } else {
                let word = args[i].clone();
                proof {
                    assert(texts(input@.push(word)) =~= texts(input@).push(all[i as int]));
                }
                input.push(word);
                i += 1;
            }
        }
        let text = join(&input);
        match (space_emoji, stroke_emoji) {
            (Some(space), Some(stroke)) => {
                if input.len() == 0 || text.as_str().unicode_len() == 0 {
                    Err(ConfigError::NotEnoughArguments)
                } else {
                    Ok(Config { space_emoji: space, stroke_emoji: stroke, input: text })
                }
            },
            _ => Err(ConfigError::NotEnoughArguments),
        }
    }

    /// The symbol for empty cells.
    pub fn space_emoji(&self) -> (s: &String)
        ensures
            s@ == self@.space_emoji,
    {
        &self.space_emoji
    }

    /// The symbol for filled cells.
    pub fn stroke_emoji(&self) -> (s: &String)
        ensures
            s@ == self@.stroke_emoji,
    {
        &self.stroke_emoji
    }

    /// The text to draw.
    pub fn input(&self) -> (s: &String)
        ensures
            s@ == self@.input,
    {
        &self.input
    }
}

/// Whether a string holds exactly the characters of `other`.
pub fn same_text(s: &String, other: &str) -> (same: bool)
    ensures
        same == (s@ == other@),
{
    let owned = String::from_str(other);
    *s == owned
}

/// Checks the token that followed a flag: it must be there, and it must start
/// and end with a colon.
pub fn validate_emoji(emoji: &Option<String>) -> (r: Result<(), ConfigError>)
    ensures
        r == check_symbol(symbol_view(*emoji)),
{
    match emoji {
        None => Err(ConfigError::SymbolNotProvided),
        Some(symbol) => {
            let s = symbol.as_str();
            let n = s.unicode_len();
            if n > 0 && s.get_char(0) == ':' && s.get_char(n - 1) == ':' {
                Ok(())
            } else {
                Err(ConfigError::MalformedSymbol)
            }
        },
    }
}

/// Joins the words with one space between neighbours.
pub fn join(words: &Vec<String>) -> (text: String)
    ensures
        text@ == join_words(texts(words@)),
{
    let mut text = String::new();
    let mut i: usize = 0;
    while i < words.len()
        invariant
            i <= words.len(),
            text@ == join_words(texts(words@).take(i as int)),
        decreases words.len() - i,
    {
        proof {
            let upto = texts(words@).take(i + 1);
            assert(upto.drop_last() =~= texts(words@).take(i as int));
            assert(upto.last() == words@[i as int]@);
            if i > 0 {
                reveal_strlit(" ");
                assert(" "@ =~= seq![' ']);
            }
        }
        if i > 0 {
            text.append(" ");
        }
        text.append(words[i].as_str());
        i += 1;
    }
    assert(texts(words@).take(words.len() as int) =~= texts(words@));
    text
}

} // verus!
