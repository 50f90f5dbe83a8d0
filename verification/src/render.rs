//! The renderer: five content rows between two border rows.

use vstd::prelude::*;
use vstd::std_specs::iter::IteratorSpec;
use vstd::string::*;
use crate::alphabet::{glyph_of, is_supported, lookup, GLYPH_ROWS};
use vstd::seq_lib::lemma_flatten_concat;
use crate::config::{is_wrapped, texts, Config, ConfigView};

verus! {

/// Why a text cannot be drawn.
#[derive(Clone, Copy, Debug, PartialEq, Eq, Structural)]
pub enum RenderError {
    /// The text holds a character that has no glyph.
    UnsupportedCharacter,
}

impl RenderError {
    /// The words of the message.
    pub open spec fn text(self) -> Seq<char> {
        "Invalid character! Use english letter only!"@
    }

    /// The message shown for this error.
    pub fn message(&self) -> (m: &'static str)
        ensures
            m@ == self.text(),
    {
        "Invalid character! Use english letter only!"
    }
}

/// Every character of the text has a glyph.
pub open spec fn supported_text(text: Seq<char>) -> bool {
    forall|i: int| 0 <= i < text.len() ==> is_supported(#[trigger] text[i])
}

/// One symbol per cell: the stroke symbol for a filled cell, the space symbol
/// for an empty one.
pub open spec fn draw(space: Seq<char>, stroke: Seq<char>, pattern: Seq<bool>) -> Seq<char>
    decreases pattern.len(),
{
    if pattern.len() == 0 {
        Seq::empty()
    } else {
        draw(space, stroke, pattern.drop_last()) + (if pattern.last() {
            stroke
        } else {
            space
        })
    }
}

/// Row `row` of the drawing: the space symbol, then for each character its
/// cells of that row followed by the space symbol.
pub open spec fn content_row(space: Seq<char>, stroke: Seq<char>, text: Seq<char>, row: int) -> Seq<
    char,
>
    decreases text.len(),
{
    if text.len() == 0 {
        space
    } else {
        content_row(space, stroke, text.drop_last(), row) + draw(
            space,
            stroke,
            glyph_of(text.last()).unwrap()@[row],
        ) + space
    }
}

/// How many times two colons in a row occur in `s`, reading from the left and
/// never counting a colon twice.
pub open spec fn separators(s: Seq<char>) -> nat
    decreases s.len(),
{
    if s.len() < 2 {
        0
    } else if s[0] == ':' && s[1] == ':' {
        1 + separators(s.skip(2))
    } else {
        separators(s.skip(1))
    }
}

/// `n` copies of `s`, one after the other.
pub open spec fn repeated(s: Seq<char>, n: nat) -> Seq<char>
    decreases n,
{
    if n == 0 {
        Seq::empty()
    } else {
        repeated(s, (n - 1) as nat) + s
    }
}

/// The border row: the space symbol once for each piece into which the double
/// colons cut the first content row.
pub open spec fn border(space: Seq<char>, stroke: Seq<char>, text: Seq<char>) -> Seq<char> {
    repeated(space, separators(content_row(space, stroke, text, 0)) + 1)
}

/// The whole drawing: a border row, the five content rows, and the border row
/// again.
pub open spec fn drawing(v: ConfigView) -> Seq<Seq<char>> {
    seq![
        border(v.space_emoji, v.stroke_emoji, v.input),
        content_row(v.space_emoji, v.stroke_emoji, v.input, 0),
        content_row(v.space_emoji, v.stroke_emoji, v.input, 1),
        content_row(v.space_emoji, v.stroke_emoji, v.input, 2),
        content_row(v.space_emoji, v.stroke_emoji, v.input, 3),
        content_row(v.space_emoji, v.stroke_emoji, v.input, 4),
        border(v.space_emoji, v.stroke_emoji, v.input),
    ]
}

/// What rendering gives for a configuration: the drawing, or the error where
/// a character of the text has no glyph. It depends on the two symbols and
/// the text alone.
pub open spec fn rendered(v: ConfigView) -> Result<Seq<Seq<char>>, RenderError> {
    if supported_text(v.input) {
        Ok(drawing(v))
    } else {
        Err(RenderError::UnsupportedCharacter)
    }
}

/// Equal symbols and equal text give equal results, row for row.
pub proof fn lemma_render_deterministic(a: Config, b: Config)
    requires
        a@ == b@,
    ensures
        rendered(a@) == rendered(b@),
{
}

/// A text with a character that is no Latin letter and no space is not
/// drawn: rendering fails, and gives no rows.
pub proof fn lemma_unsupported_character_fails(v: ConfigView, i: int)
    requires
        0 <= i < v.input.len(),
        !is_supported(v.input[i]),
    ensures
        rendered(v) == Err::<Seq<Seq<char>>, RenderError>(RenderError::UnsupportedCharacter),
{
}

/// A text of Latin letters and spaces is always drawn.
pub proof fn lemma_supported_text_is_drawn(v: ConfigView)
    requires
        forall|i: int|
            0 <= i < v.input.len() ==> {
                let c = #[trigger] v.input[i];
                ('A' <= c && c <= 'Z') || ('a' <= c && c <= 'z') || c == ' '
            },
    ensures
        rendered(v) == Ok::<Seq<Seq<char>>, RenderError>(drawing(v)),
{
}

/// The filled cells of a glyph row.
pub open spec fn filled_cells(pattern: Seq<bool>) -> nat
    decreases pattern.len(),
{
    if pattern.len() == 0 {
        0
    } else {
        filled_cells(pattern.drop_last()) + if pattern.last() {
            1nat
        } else {
            0nat
        }
    }
}

/// The stroke symbols in content row `row` of a text.
pub open spec fn stroke_symbols(text: Seq<char>, row: int) -> nat
    decreases text.len(),
{
    if text.len() == 0 {
        0
    } else {
        stroke_symbols(text.drop_last(), row) + filled_cells(glyph_of(text.last()).unwrap()@[row])
    }
}

/// The symbols in each content row of a text: one at the start, and for each
/// character one per column of its glyph and one after it.
pub open spec fn row_symbols(text: Seq<char>) -> nat
    decreases text.len(),
{
    if text.len() == 0 {
        1
    } else {
        row_symbols(text.drop_last()) + glyph_of(text.last()).unwrap().width as nat + 1
    }
}

/// A drawn glyph row has one symbol per cell: as many stroke symbols as there
/// are filled cells, and space symbols for the rest.
pub proof fn lemma_draw_len(space: Seq<char>, stroke: Seq<char>, pattern: Seq<bool>)
    ensures
        filled_cells(pattern) <= pattern.len(),
        draw(space, stroke, pattern).len() == space.len() * (pattern.len() - filled_cells(pattern))
            + stroke.len() * filled_cells(pattern),
    decreases pattern.len(),
{
    if pattern.len() > 0 {
        let rest = pattern.drop_last();
        lemma_draw_len(space, stroke, rest);
        let f = filled_cells(rest) as int;
        let e = rest.len() - f;
        let a = space.len() as int;
        let b = stroke.len() as int;
        assert(a * (e + 1) + b * f == a * e + b * f + a) by (nonlinear_arith);
        assert(a * e + b * (f + 1) == a * e + b * f + b) by (nonlinear_arith);
    } else {
        assert(space.len() * 0 + stroke.len() * 0 == 0) by (nonlinear_arith);
    }
}

/// The length of a content row: the space symbol's length times the number of
/// space symbols in the row, and the stroke symbol's length times the number
/// of stroke symbols.
pub proof fn lemma_row_len(space: Seq<char>, stroke: Seq<char>, text: Seq<char>, row: int)
    requires
        supported_text(text),
        0 <= row < 5,
    ensures
        stroke_symbols(text, row) <= row_symbols(text),
        content_row(space, stroke, text, row).len() == space.len() * (row_symbols(text)
            - stroke_symbols(text, row)) + stroke.len() * stroke_symbols(text, row),
    decreases text.len(),
{
    if text.len() > 0 {
        let rest = text.drop_last();
        assert forall|i: int| 0 <= i < rest.len() implies is_supported(#[trigger] rest[i]) by {
            assert(rest[i] == text[i]);
        }
        lemma_row_len(space, stroke, rest, row);
        assert(is_supported(text[text.len() - 1]));
        let glyph = glyph_of(text.last()).unwrap();
        let pattern = glyph@[row];
        assert(pattern.len() == glyph.width);
        lemma_draw_len(space, stroke, pattern);
        let a = space.len() as int;
        let b = stroke.len() as int;
        let s0 = stroke_symbols(rest, row) as int;
        let e0 = row_symbols(rest) - s0;
        let f = filled_cells(pattern) as int;
        let e = pattern.len() - f;
        assert(a * (e0 + e + 1) + b * (s0 + f) == (a * e0 + b * s0) + (a * e + b * f) + a)
            by (nonlinear_arith);
    } else {
        assert(space.len() * 1 + stroke.len() * 0 == space.len()) by (nonlinear_arith);
    }
}

/// A drawing has seven rows, and its last row is its first, the border.
///
/// The five content rows hold the same number of symbols. Their lengths in
/// characters are all equal exactly when the two symbols are equally long or
/// every row of the text has as many filled cells as the first.
pub proof fn lemma_drawing_shape(v: ConfigView)
    requires
        supported_text(v.input),
    ensures
        drawing(v).len() == 7,
        drawing(v)[0] == drawing(v)[6],
        forall|row: int|
            0 <= row < 5 ==> (#[trigger] drawing(v)[row + 1]).len() == v.space_emoji.len() * (
            row_symbols(v.input) - stroke_symbols(v.input, row)) + v.stroke_emoji.len()
                * stroke_symbols(v.input, row),
        (forall|row: int| 0 <= row < 5 ==> (#[trigger] drawing(v)[row + 1]).len() == drawing(
            v,
        )[1].len()) <==> (v.space_emoji.len() == v.stroke_emoji.len() || forall|row: int|
            0 <= row < 5 ==> #[trigger] stroke_symbols(v.input, row) == stroke_symbols(v.input, 0)),
{
    let a = v.space_emoji.len() as int;
    let b = v.stroke_emoji.len() as int;
    let n = row_symbols(v.input) as int;
    let s0 = stroke_symbols(v.input, 0) as int;
    assert forall|row: int| 0 <= row < 5 implies (#[trigger] drawing(v)[row + 1]).len() == a * (n
        - stroke_symbols(v.input, row)) + b * stroke_symbols(v.input, row) by {
        lemma_row_len(v.space_emoji, v.stroke_emoji, v.input, row);
    }
    assert(drawing(v)[0int + 1].len() == a * (n - s0) + b * s0);
    assert forall|row: int| 0 <= row < 5 implies ((#[trigger] drawing(v)[row + 1]).len()
        == drawing(v)[1].len() <==> (a == b || stroke_symbols(v.input, row) == s0)) by {
        let s = stroke_symbols(v.input, row) as int;
        assert(a * (n - s) + b * s == a * (n - s0) + b * s0 <==> (a == b || s == s0))
            by (nonlinear_arith);
    }
    if a != b {
        if forall|row: int|
            0 <= row < 5 ==> (#[trigger] drawing(v)[row + 1]).len() == drawing(v)[1].len() {
            assert forall|row: int| 0 <= row < 5 implies #[trigger] stroke_symbols(v.input, row)
                == s0 by {
                assert(drawing(v)[row + 1].len() == drawing(v)[1].len());
            }
        }
    }
}

/// A symbol whose colons stand alone: it starts and ends with a colon, and
/// no colon in it follows another.
pub open spec fn lone_colons(symbol: Seq<char>) -> bool {
    &&& symbol.len() >= 2
    &&& is_wrapped(symbol)
    &&& forall|j: int|
        0 <= j < symbol.len() - 1 ==> !(#[trigger] symbol[j] == ':' && symbol[j + 1] == ':')
}

/// The symbol of each cell of a glyph row.
pub open spec fn cell_symbols(space: Seq<char>, stroke: Seq<char>, pattern: Seq<bool>) -> Seq<
    Seq<char>,
> {
    Seq::new(
        pattern.len(),
        |k: int|
            if pattern[k] {
                stroke
            } else {
                space
            },
    )
}

/// Content row `row` symbol by symbol.
pub open spec fn row_symbol_list(
    space: Seq<char>,
    stroke: Seq<char>,
    text: Seq<char>,
    row: int,
) -> Seq<Seq<char>>
    decreases text.len(),
{
    if text.len() == 0 {
        seq![space]
    } else {
        row_symbol_list(space, stroke, text.drop_last(), row) + cell_symbols(
            space,
            stroke,
            glyph_of(text.last()).unwrap()@[row],
        ) + seq![space]
    }
}

/// A drawn glyph row is its cells' symbols, one after the other.
pub proof fn lemma_draw_is_flat(space: Seq<char>, stroke: Seq<char>, pattern: Seq<bool>)
    ensures
        draw(space, stroke, pattern) == cell_symbols(space, stroke, pattern).flatten(),
    decreases pattern.len(),
{
    if pattern.len() > 0 {
        let rest = pattern.drop_last();
        let symbol = if pattern.last() {
            stroke
        } else {
            space
        };
        lemma_draw_is_flat(space, stroke, rest);
        assert(cell_symbols(space, stroke, pattern) =~= cell_symbols(space, stroke, rest).push(
            symbol,
        ));
        cell_symbols(space, stroke, rest).lemma_flatten_push(symbol);
    } else {
        assert(cell_symbols(space, stroke, pattern) =~= Seq::<Seq<char>>::empty());
    }
}

/// A content row is its symbols, one after the other; there are as many as
/// `row_symbols` says, and each is one of the two symbols.
pub proof fn lemma_row_is_flat(space: Seq<char>, stroke: Seq<char>, text: Seq<char>, row: int)
    requires
        supported_text(text),
        0 <= row < 5,
    ensures
        content_row(space, stroke, text, row) == row_symbol_list(
            space,
            stroke,
            text,
            row,
        ).flatten(),
        row_symbol_list(space, stroke, text, row).len() == row_symbols(text),
        forall|k: int|
            0 <= k < row_symbols(text) ==> {
                let symbol = #[trigger] row_symbol_list(space, stroke, text, row)[k];
                symbol == space || symbol == stroke
            },
    decreases text.len(),
{
    if text.len() > 0 {
        let rest = text.drop_last();
        assert forall|i: int| 0 <= i < rest.len() implies is_supported(#[trigger] rest[i]) by {
            assert(rest[i] == text[i]);
        }
        lemma_row_is_flat(space, stroke, rest, row);
        assert(is_supported(text[text.len() - 1]));
        let glyph = glyph_of(text.last()).unwrap();
        let pattern = glyph@[row];
        assert(pattern.len() == glyph.width);
        lemma_draw_is_flat(space, stroke, pattern);
        let before = row_symbol_list(space, stroke, rest, row);
        let cells = cell_symbols(space, stroke, pattern);
        lemma_flatten_concat(before, cells);
        (before + cells).lemma_flatten_push(space);
        assert(before + cells + seq![space] =~= (before + cells).push(space));
    } else {
        seq![space].lemma_flatten_one_element();
    }
}

/// Inside a symbol whose colons stand alone no separator begins: reading on
/// from any place in it finds what reading on from its last colon finds.
pub proof fn lemma_no_separator_inside(symbol: Seq<char>, rest: Seq<char>, from: int)
    requires
        lone_colons(symbol),
        0 <= from <= symbol.len() - 1,
    ensures
        separators((symbol + rest).skip(from)) == separators(
            (symbol + rest).skip(symbol.len() - 1),
        ),
    decreases symbol.len() - from,
{
    if from < symbol.len() - 1 {
        let here = (symbol + rest).skip(from);
        assert(here[0] == symbol[from]);
        assert(here[1] == symbol[from + 1]);
        assert(here.skip(1) =~= (symbol + rest).skip(from + 1));
        lemma_no_separator_inside(symbol, rest, from + 1);
    }
}

/// Symbols whose colons stand alone, one after the other, hold one separator
/// between each two neighbours and no other, also when the first colon is
/// left out.
pub proof fn lemma_separators_between(symbols: Seq<Seq<char>>, from: int)
    requires
        symbols.len() > 0,
        forall|k: int| 0 <= k < symbols.len() ==> lone_colons(#[trigger] symbols[k]),
        from == 0 || from == 1,
    ensures
        separators(symbols.flatten().skip(from)) == symbols.len() - 1,
    decreases symbols.len(),
{
    let first = symbols.first();
    let others = symbols.drop_first();
    let rest = others.flatten();
    assert(lone_colons(symbols[0]));
    lemma_no_separator_inside(first, rest, from);
    let tail = (first + rest).skip(first.len() - 1);
    if others.len() == 0 {
        assert(tail.len() == 1);
    } else {
        assert forall|k: int| 0 <= k < others.len() implies lone_colons(#[trigger] others[k]) by {
            assert(others[k] == symbols[k + 1]);
        }
        assert(lone_colons(others[0]));
        assert(tail[0] == first[first.len() - 1]);
        assert(tail[1] == others.first()[0]);
        assert(tail.skip(2) =~= rest.skip(1));
        lemma_separators_between(others, 1);
    }
}

/// Where the colons of both symbols stand alone, the border row holds as
/// many symbols as each content row.
pub proof fn lemma_border_spans_row(v: ConfigView)
    requires
        supported_text(v.input),
        lone_colons(v.space_emoji),
        lone_colons(v.stroke_emoji),
    ensures
        border(v.space_emoji, v.stroke_emoji, v.input) == repeated(
            v.space_emoji,
            row_symbols(v.input),
        ),
{
    lemma_row_is_flat(v.space_emoji, v.stroke_emoji, v.input, 0);
    let symbols = row_symbol_list(v.space_emoji, v.stroke_emoji, v.input, 0);
    assert(symbols.flatten().skip(0) =~= symbols.flatten());
    lemma_separators_between(symbols, 0);
}

/// The characters of a string, in order.
pub fn chars_of(s: &str) -> (chars: Vec<char>)
    ensures
        chars@ == s@,
{
    broadcast use vstd::string::group_string_axioms;

    let mut rest = s.chars();
    let mut chars: Vec<char> = Vec::new();
    assert(chars@ + rest.remaining() =~= s@);
    loop
        invariant
            chars@ + rest.remaining() == s@,
            rest.decrease() is Some,
        ensures
            chars@ == s@,
        decreases rest.decrease()->0,
    {
        let ghost before = rest.remaining();
        match rest.next() {
            None => {
                assert(chars@ + before =~= chars@);
                break ;
            },
            Some(c) => {
                chars.push(c);
                assert(chars@ + rest.remaining() =~= s@);
            },
        }
    }
    chars
}

/// Counts the pieces between double colons: one more than there are
/// separators.
pub fn count_segments(row: &Vec<char>) -> (n: usize)
    ensures
        n == separators(row@) + 1,
{
    let mut count: usize = 1;
    let mut i: usize = 0;
    assert(row@.skip(0) =~= row@);
    while i < row.len() && i + 1 < row.len()
        invariant
            i <= row.len(),
            count <= i + 1,
            separators(row@) + 1 == count + separators(row@.skip(i as int)),
        decreases row.len() - i,
    {
        let ghost rest = row@.skip(i as int);
        if row[i] == ':' && row[i + 1] == ':' {
            assert(rest.skip(2) =~= row@.skip(i + 2));
            count += 1;
            i += 2;
        } else {
            assert(rest.skip(1) =~= row@.skip(i + 1));
            i += 1;
        }
    }
    count
}

/// `n` copies of `s`, one after the other.
pub fn repeat(s: &str, n: usize) -> (out: String)
    ensures
        out@ == repeated(s@, n as nat),
{
    let mut out = String::new();
    let mut k: usize = 0;
    while k < n
        invariant
            k <= n,
            out@ == repeated(s@, k as nat),
        decreases n - k,
    {
        out.append(s);
        k += 1;
    }
    out
}

/// A drawing in the making: the configuration, and the rows drawn so far.
pub struct Text {
    pub config: Config,
    pub output: Vec<String>,
}

impl Text {
    /// Starts with no rows.
    pub fn new(config: Config) -> (text: Text)
        ensures
            text.config == config,
            text.output@.len() == 0,
    {
        Text { config: config, output: Vec::new() }
    }

    /// Appends the symbols of one glyph row to `row`.
    pub fn draw_character(&self, row: &mut String, pattern: &[bool])
        ensures
            final(row)@ == old(row)@ + draw(
                self.config@.space_emoji,
                self.config@.stroke_emoji,
                pattern@,
            ),
    {
        let mut k: usize = 0;
        assert(pattern@.take(0) =~= Seq::<bool>::empty());
        assert(row@ =~= old(row)@ + Seq::<char>::empty());
        while k < pattern.len()
            invariant
                k <= pattern.len(),
                row@ == old(row)@ + draw(
                    self.config@.space_emoji,
                    self.config@.stroke_emoji,
                    pattern@.take(k as int),
                ),
            decreases pattern.len() - k,
        {
            proof {
                let upto = pattern@.take(k + 1);
                assert(upto.drop_last() =~= pattern@.take(k as int));
                assert(upto.last() == pattern@[k as int]);
            }
            if pattern[k] {
                row.append(self.config.stroke_emoji().as_str());
                assert(row@ =~= old(row)@ + (draw(
                    self.config@.space_emoji,
                    self.config@.stroke_emoji,
                    pattern@.take(k as int),
                ) + self.config@.stroke_emoji));
            } else {
                row.append(self.config.space_emoji().as_str());
                assert(row@ =~= old(row)@ + (draw(
                    self.config@.space_emoji,
                    self.config@.stroke_emoji,
                    pattern@.take(k as int),
                ) + self.config@.space_emoji));
            }
            k += 1;
        }
        assert(pattern@.take(pattern.len() as int) =~= pattern@);
    }

    /// Draws content row `row` of the text, or fails at the first character
    /// that has no glyph.
    pub fn draw_row(&self, chars: &Vec<char>, row: u32) -> (r: Result<String, RenderError>)
        requires
            row < GLYPH_ROWS,
        ensures
            supported_text(chars@) ==> r is Ok && r.unwrap()@ == content_row(
                self.config@.space_emoji,
                self.config@.stroke_emoji,
                chars@,
                row as int,
            ),
            !supported_text(chars@) ==> r == Err::<String, RenderError>(
                RenderError::UnsupportedCharacter,
            ),
    {
        let mut row_text = self.config.space_emoji().clone();
        let mut i: usize = 0;
        assert(chars@.take(0) =~= Seq::<char>::empty());
        while i < chars.len()
            invariant
                row < GLYPH_ROWS,
                i <= chars.len(),
                supported_text(chars@.take(i as int)),
                row_text@ == content_row(
                    self.config@.space_emoji,
                    self.config@.stroke_emoji,
                    chars@.take(i as int),
                    row as int,
                ),
            decreases chars.len() - i,
        {
            proof {
                let upto = chars@.take(i + 1);
                assert(upto.drop_last() =~= chars@.take(i as int));
                assert(upto.last() == chars@[i as int]);
            }
            match lookup(chars[i]) {
                None => {
                    assert(!is_supported(chars@[i as int]));
                    return Err(RenderError::UnsupportedCharacter);
                },
                Some(glyph) => {
                    let cells = glyph.pattern(row);
                    self.draw_character(&mut row_text, cells.as_slice());
                    row_text.append(self.config.space_emoji().as_str());
                    assert forall|k: int| 0 <= k < i + 1 implies is_supported(
                        #[trigger] chars@.take(i + 1)[k],
                    ) by {
                        if k < i {
                            assert(chars@.take(i as int)[k] == chars@[k]);
                        }
                    }
                },
            }
            i += 1;
        }
        assert(chars@.take(chars.len() as int) =~= chars@);
        Ok(row_text)
    }

    /// Draws the text: appends to the rows a border row, the five content
    /// rows and the border row again. Where a character has no glyph, fails
    /// and leaves the rows as they were.
    pub fn generate(&mut self) -> (r: Result<(), RenderError>)
        ensures
            final(self).config == old(self).config,
            supported_text(old(self).config@.input) ==> r is Ok && texts(final(self).output@)
                == texts(old(self).output@) + drawing(old(self).config@),
            !supported_text(old(self).config@.input) ==> r == Err::<(), RenderError>(
                RenderError::UnsupportedCharacter,
            ) && final(self).output == old(self).output,
    {
        let text_chars = chars_of(self.config.input().as_str());
        let mut rows: Vec<String> = Vec::new();
        let mut row_number: u32 = 0;
        while row_number < GLYPH_ROWS
            invariant
                row_number <= GLYPH_ROWS,
                text_chars@ == self.config@.input,
                *self == *old(self),
                row_number > 0 ==> supported_text(text_chars@),
                rows@.len() == row_number,
                forall|k: int|
                    0 <= k < row_number ==> (#[trigger] rows@[k])@ == content_row(
                        self.config@.space_emoji,
                        self.config@.stroke_emoji,
                        text_chars@,
                        k,
                    ),
            decreases GLYPH_ROWS - row_number,
        {
            match self.draw_row(&text_chars, row_number) {
                Err(e) => {
                    return Err(e);
                },
                Ok(row_text) => {
                    rows.push(row_text);
                },
            }
            row_number += 1;
        }
        let first = chars_of(rows[0].as_str());
        let row_count = count_segments(&first);
        let edge = repeat(self.config.space_emoji().as_str(), row_count);
        self.output.push(edge.clone());
        let mut k: usize = 0;
        while k < rows.len()
            invariant
                k <= rows.len(),
                rows@.len() == 5,
                self.config == old(self).config,
                self.output@.len() == old(self).output@.len() + 1 + k,
                forall|j: int|
                    0 <= j < old(self).output@.len() ==> self.output@[j] == old(self).output@[j],
                self.output@[old(self).output@.len() as int] == edge,
                forall|j: int|
                    0 <= j < k ==> #[trigger] self.output@[old(self).output@.len() + 1 + j]
                        == rows@[j],
            decreases rows.len() - k,
        {
            self.output.push(rows[k].clone());
            k += 1;
        }
        self.output.push(edge);
        proof {
            let base = old(self).output@.len() as int;
            let expected = texts(old(self).output@) + drawing(old(self).config@);
            assert(drawing(old(self).config@).len() == 7);
            assert(self.output@[base + 1 + 0] == rows@[0]);
            assert(self.output@[base + 1 + 1] == rows@[1]);
            assert(self.output@[base + 1 + 2] == rows@[2]);
            assert(self.output@[base + 1 + 3] == rows@[3]);
            assert(self.output@[base + 1 + 4] == rows@[4]);
            assert forall|j: int| 0 <= j < base + 7 implies texts(self.output@)[j]
                == expected[j] by {
                if j < base {
                    assert(self.output@[j] == old(self).output@[j]);
                }
            }
            assert(texts(self.output@) =~= expected);
        }
        Ok(())
    }
}

/// Draws the configured text and returns the rows of the drawing, top to
/// bottom, or fails where a character of the text has no glyph.
pub fn run(config: Config) -> (r: Result<Vec<String>, RenderError>)
    ensures
        match rendered(config@) {
            Ok(rows) => r is Ok && texts(r.unwrap()@) == rows,
            Err(e) => r == Err::<Vec<String>, RenderError>(e),
        },
{
    let mut text = Text::new(config);
    match text.generate() {
        Err(e) => Err(e),
        Ok(_) => {
            assert(texts(text.output@) =~= drawing(config@));
            Ok(text.output)
        },
    }
}

} // verus!
