//! Turning a terminal's text with ANSI escape sequences into styled lines
//! for a preview: SGR sequences (`ESC [ ... m`) set the style, any other
//! control sequence is dropped.

use vstd::prelude::*;

use crate::style::{Color, Modifiers, Style};
use crate::text::{parse_unsigned, parse_unsigned_chars, str_chars, string_from_chars};

verus! {

/// A line of text as runs of characters, each with its style.
pub type StyledLine = Vec<(String, Style)>;

/// The `;`-separated fields of `s`; there is always at least one.
pub open spec fn fields(s: Seq<char>) -> Seq<Seq<char>>
    decreases s.len(),
{
    if s.len() == 0 {
        seq![Seq::empty()]
    } else {
        let f = fields(s.drop_last());
        if s.last() == ';' {
            f.push(Seq::empty())
        } else {
            f.update(f.len() - 1, f.last().push(s.last()))
        }
    }
}

proof fn lemma_fields_nonempty(s: Seq<char>)
    ensures
        fields(s).len() >= 1,
    decreases s.len(),
{
    if s.len() > 0 {
        lemma_fields_nonempty(s.drop_last());
    }
}

/// A field's number: what it spells as a `u16`, or 0 when it spells none.
pub open spec fn code_of(field: Seq<char>) -> u16 {
    match parse_unsigned(field, 65535) {
        Some(v) => v as u16,
        None => 0,
    }
}

/// The parameter codes of an SGR sequence.
pub open spec fn sgr_codes(params: Seq<char>) -> Seq<u16> {
    fields(params).map_values(|f: Seq<char>| code_of(f))
}

/// The colour an extended colour code (`38` or `48`) sets from the codes
/// after it, and how many of them it uses: `5;n` for palette entry `n`,
/// `2;r;g;b` for a true colour; a number past 255 counts as 0.
pub open spec fn spec_extended(codes: Seq<u16>, from: int) -> (Option<Color>, nat) {
    let rest = codes.subrange(from, codes.len() as int);
    if rest.len() >= 2 && rest[0] == 5 {
        (Some(Color::Indexed(byte_or_zero(rest[1]))), 2)
    } else if rest.len() >= 4 && rest[0] == 2 {
        (Some(Color::Rgb(byte_or_zero(rest[1]), byte_or_zero(rest[2]), byte_or_zero(rest[3]))), 4)
    } else {
        (None, 0)
    }
}

pub open spec fn byte_or_zero(v: u16) -> u8 {
    if v <= 255 { v as u8 } else { 0 }
}

/// The named colour with index `index`: the eight normal colours, then
/// the eight bright ones; anything past them is white.
pub open spec fn spec_basic(index: u16) -> Color {
    if index == 0 {
        Color::Black
    } else if index == 1 {
        Color::Red
    } else if index == 2 {
        Color::Green
    } else if index == 3 {
        Color::Yellow
    } else if index == 4 {
        Color::Blue
    } else if index == 5 {
        Color::Magenta
    } else if index == 6 {
        Color::Cyan
    } else if index == 7 {
        Color::Gray
    } else if index == 8 {
        Color::DarkGray
    } else if index == 9 {
        Color::LightRed
    } else if index == 10 {
        Color::LightGreen
    } else if index == 11 {
        Color::LightYellow
    } else if index == 12 {
        Color::LightBlue
    } else if index == 13 {
        Color::LightMagenta
    } else if index == 14 {
        Color::LightCyan
    } else {
        Color::White
    }
}

pub fn basic(index: u16) -> (r: Color)
    ensures
        r == spec_basic(index),
{
    match index {
        0 => Color::Black,
        1 => Color::Red,
        2 => Color::Green,
        3 => Color::Yellow,
        4 => Color::Blue,
        5 => Color::Magenta,
        6 => Color::Cyan,
        7 => Color::Gray,
        8 => Color::DarkGray,
        9 => Color::LightRed,
        10 => Color::LightGreen,
        11 => Color::LightYellow,
        12 => Color::LightBlue,
        13 => Color::LightMagenta,
        14 => Color::LightCyan,
        _ => Color::White,
    }
}

/// `style` with the code `code` applied, for the codes that take no
/// further codes.
pub open spec fn apply_code(style: Style, code: u16) -> Style {
    let m = style.modifiers;
    if code == 0 {
        Style::spec_default()
    } else if code == 1 {
        Style { modifiers: Modifiers { bold: true, ..m }, ..style }
    } else if code == 2 {
        Style { modifiers: Modifiers { dim: true, ..m }, ..style }
    } else if code == 3 {
        Style { modifiers: Modifiers { italic: true, ..m }, ..style }
    } else if code == 4 {
        Style { modifiers: Modifiers { underlined: true, ..m }, ..style }
    } else if code == 7 {
        Style { modifiers: Modifiers { reversed: true, ..m }, ..style }
    } else if code == 9 {
        Style { modifiers: Modifiers { crossed_out: true, ..m }, ..style }
    } else if code == 22 {
        Style { modifiers: Modifiers { bold: false, dim: false, ..m }, ..style }
    } else if code == 23 {
        Style { modifiers: Modifiers { italic: false, ..m }, ..style }
    } else if code == 24 {
        Style { modifiers: Modifiers { underlined: false, ..m }, ..style }
    } else if code == 27 {
        Style { modifiers: Modifiers { reversed: false, ..m }, ..style }
    } else if code == 29 {
        Style { modifiers: Modifiers { crossed_out: false, ..m }, ..style }
    } else if 30 <= code <= 37 {
        Style { fg: Some(spec_basic((code - 30) as u16)), ..style }
    } else if 90 <= code <= 97 {
        Style { fg: Some(spec_basic((code - 90 + 8) as u16)), ..style }
    } else if 40 <= code <= 47 {
        Style { bg: Some(spec_basic((code - 40) as u16)), ..style }
    } else if 100 <= code <= 107 {
        Style { bg: Some(spec_basic((code - 100 + 8) as u16)), ..style }
    } else if code == 39 {
        Style { fg: None, ..style }
    } else if code == 49 {
        Style { bg: None, ..style }
    } else {
        style
    }
}

/// `style` with the codes from position `i` on applied in order; an
/// extended colour code also uses the codes that describe its colour.
pub open spec fn apply_codes(style: Style, codes: Seq<u16>, i: int) -> Style
    decreases codes.len() - i,
{
    if i < 0 || i >= codes.len() {
        style
    } else if codes[i] == 38 || codes[i] == 48 {
        let (color, used) = spec_extended(codes, i + 1);
        let next = match color {
            Some(c) => if codes[i] == 38 {
                Style { fg: Some(c), ..style }
            } else {
                Style { bg: Some(c), ..style }
            },
            None => style,
        };
        apply_codes(next, codes, i + used + 1)
    } else {
        apply_codes(apply_code(style, codes[i]), codes, i + 1)
    }
}

/// The style after an SGR sequence with parameters `params`.
pub open spec fn spec_apply_sgr(style: Style, params: Seq<char>) -> Style {
    apply_codes(style, sgr_codes(params), 0)
}

fn byte_or_zero_exec(v: u16) -> (r: u8)
    ensures
        r == byte_or_zero(v),
{
    if v <= 255 { v as u8 } else { 0 }
}

fn extended(codes: &[u16], from: usize) -> (r: (Option<Color>, usize))
    requires
        from <= codes@.len(),
    ensures
        r.0 == spec_extended(codes@, from as int).0,
        r.1 as nat == spec_extended(codes@, from as int).1,
{
    let n = codes.len() - from;
    if n >= 2 && codes[from] == 5 {
        (Some(Color::Indexed(byte_or_zero_exec(codes[from + 1]))), 2)
    } else if n >= 4 && codes[from] == 2 {
        (
            Some(
                Color::Rgb(
                    byte_or_zero_exec(codes[from + 1]),
                    byte_or_zero_exec(codes[from + 2]),
                    byte_or_zero_exec(codes[from + 3]),
                ),
            ),
            4,
        )
    } else {
        (None, 0)
    }
}

fn apply_code_exec(style: Style, code: u16) -> (r: Style)
    ensures
        r == apply_code(style, code),
{
    let mut next = style;
    if code == 0 {
        next = Style::plain();
    } else if code == 1 {
        next.modifiers.bold = true;
    } else if code == 2 {
        next.modifiers.dim = true;
    } else if code == 3 {
        next.modifiers.italic = true;
    } else if code == 4 {
        next.modifiers.underlined = true;
    } else if code == 7 {
        next.modifiers.reversed = true;
    } else if code == 9 {
        next.modifiers.crossed_out = true;
    } else if code == 22 {
        next.modifiers.bold = false;
        next.modifiers.dim = false;
    } else if code == 23 {
        next.modifiers.italic = false;
    } else if code == 24 {
        next.modifiers.underlined = false;
    } else if code == 27 {
        next.modifiers.reversed = false;
    } else if code == 29 {
        next.modifiers.crossed_out = false;
    } else if 30 <= code && code <= 37 {
        next.fg = Some(basic(code - 30));
    } else if 90 <= code && code <= 97 {
        next.fg = Some(basic(code - 90 + 8));
    } else if 40 <= code && code <= 47 {
        next.bg = Some(basic(code - 40));
    } else if 100 <= code && code <= 107 {
        next.bg = Some(basic(code - 100 + 8));
    } else if code == 39 {
        next.fg = None;
    } else if code == 49 {
        next.bg = None;
    }
    next
}

/// The codes of an SGR sequence's parameters.
fn codes_of(params: &[char]) -> (r: Vec<u16>)
    ensures
        r@ == sgr_codes(params@),
{
    let mut codes: Vec<u16> = Vec::new();
    let mut field: Vec<char> = Vec::new();
    let mut i: usize = 0;
    assert(params@.subrange(0, 0) =~= Seq::<char>::empty());
    while i < params.len()
        invariant
            i <= params@.len(),
            fields(params@.subrange(0, i as int)) == fields(params@.subrange(0, i as int)).subrange(
                0,
                codes@.len() as int,
            ).push(field@),
            codes@ == fields(params@.subrange(0, i as int)).subrange(0, codes@.len() as int).map_values(
                |f: Seq<char>| code_of(f),
            ),
        decreases params@.len() - i,
    {
        let ghost before = fields(params@.subrange(0, i as int));
        assert(params@.subrange(0, i + 1).drop_last() =~= params@.subrange(0, i as int));
        let c = params[i];
        if c == ';' {
            let code = match parse_unsigned_chars(field.as_slice(), 65535) {
                Some(v) => v as u16,
                None => 0,
            };
            codes.push(code);
            field = Vec::new();
            i += 1;
            let ghost after = fields(params@.subrange(0, i as int));
            assert(after == before.push(Seq::<char>::empty()));
            assert(after.subrange(0, codes@.len() as int) =~= before);
            assert(after =~= after.subrange(0, codes@.len() as int).push(field@));
            assert(codes@ =~= after.subrange(0, codes@.len() as int).map_values(|f: Seq<char>| code_of(f)));
        } else {
            field.push(c);
            i += 1;
            let ghost after = fields(params@.subrange(0, i as int));
            assert(after =~= after.subrange(0, codes@.len() as int).push(field@));
        }
    }
    let code = match parse_unsigned_chars(field.as_slice(), 65535) {
        Some(v) => v as u16,
        None => 0,
    };
    codes.push(code);
    assert(params@.subrange(0, params@.len() as int) =~= params@);
    assert(codes@ =~= sgr_codes(params@));
    codes
}

/// The style after an SGR sequence with parameters `params`.
pub fn apply_sgr(style: Style, params: &[char]) -> (r: Style)
    ensures
        r == spec_apply_sgr(style, params@),
{
    let codes = codes_of(params);
    proof {
        lemma_fields_nonempty(params@);
    }
    if codes.len() == 0 {
        return Style::plain();
    }
    let mut style = style;
    let ghost start = style;
    let mut index: usize = 0;
    while index < codes.len()
        invariant
            index <= codes@.len() + 4,
            codes@ == sgr_codes(params@),
            apply_codes(start, codes@, 0) == apply_codes(style, codes@, index as int),
        decreases codes@.len() - index,
    {
        let code = codes[index];
        if code == 38 || code == 48 {
            let (color, consumed) = extended(codes.as_slice(), index + 1);
            if let Some(color) = color {
                if code == 38 {
                    style.fg = Some(color);
                } else {
                    style.bg = Some(color);
                }
            }
            index = index + consumed + 1;
        } else {
            style = apply_code_exec(style, code);
            index = index + 1;
        }
    }
    style
}

/// Whether `c` ends a control sequence.
pub open spec fn is_final_byte(c: char) -> bool {
    '\x40' <= c && c <= '\x7e'
}

/// The position of the first character at or after `j` that ends a
/// control sequence, or the end of `t`.
pub open spec fn sequence_end(t: Seq<char>, j: int) -> int
    decreases t.len() - j,
{
    if j < 0 || j >= t.len() {
        t.len() as int
    } else if is_final_byte(t[j]) {
        j
    } else {
        sequence_end(t, j + 1)
    }
}

/// The end of a control sequence found from `j` lies between `j` and the
/// end of the text, ends the sequence when it is inside the text, and no
/// character before it does.
pub proof fn lemma_sequence_end(t: Seq<char>, j: int)
    requires
        0 <= j,
    ensures
        j <= sequence_end(t, j) <= t.len() || (j > t.len() && sequence_end(t, j) == t.len()),
        sequence_end(t, j) < t.len() ==> is_final_byte(t[sequence_end(t, j)]),
        forall|k: int| j <= k < sequence_end(t, j) ==> !is_final_byte(#[trigger] t[k]),
    decreases t.len() - j,
{
    if j < t.len() && !is_final_byte(t[j]) {
        lemma_sequence_end(t, j + 1);
    }
}

/// The text of a span and its style.
pub open spec fn span_view(span: (String, Style)) -> (Seq<char>, Style) {
    (span.0@, span.1)
}

pub open spec fn line_view(line: Seq<(String, Style)>) -> Seq<(Seq<char>, Style)> {
    line.map_values(|span: (String, Style)| span_view(span))
}

pub open spec fn lines_view(lines: Seq<StyledLine>) -> Seq<Seq<(Seq<char>, Style)>> {
    lines.map_values(|line: StyledLine| line_view(line@))
}

/// Where parsing stands: the finished lines, the current line's runs, the
/// characters of the run being collected, and the current style.
pub struct AnsiState {
    pub lines: Seq<Seq<(Seq<char>, Style)>>,
    pub line: Seq<(Seq<char>, Style)>,
    pub run: Seq<char>,
    pub style: Style,
}

/// The state with the run being collected closed into the current line,
/// when it holds any characters.
pub open spec fn flushed(st: AnsiState) -> AnsiState {
    if st.run.len() > 0 {
        AnsiState { line: st.line.push((st.run, st.style)), run: Seq::empty(), ..st }
    } else {
        st
    }
}

/// Parsing `t` from position `i` on, from state `st`. An `ESC [`
/// sequence runs to its final byte (or the end of the text); an SGR one
/// (final byte `m`) that changes the style closes the current run. An ESC
/// not followed by `[` is dropped on its own. A newline closes the line,
/// and a carriage return is dropped.
pub open spec fn parse_from(t: Seq<char>, i: int, st: AnsiState) -> AnsiState
    decreases t.len() - i,
{
    if i < 0 || i >= t.len() {
        st
    } else if t[i] == '\x1b' {
        if i + 1 < t.len() && t[i + 1] == '[' {
            let k = sequence_end(t, i + 2);
            let next_style = spec_apply_sgr(st.style, t.subrange(i + 2, k));
            let st2 = if k < t.len() && t[k] == 'm' && next_style != st.style {
                AnsiState { style: next_style, ..flushed(st) }
            } else {
                st
            };
            proof {
                lemma_sequence_end(t, i + 2);
            }
            parse_from(t, if k < t.len() { k + 1 } else { t.len() as int }, st2)
        } else {
            parse_from(t, i + 1, st)
        }
    } else if t[i] == '\n' {
        let f = flushed(st);
        parse_from(t, i + 1, AnsiState { lines: f.lines.push(f.line), line: Seq::empty(), ..f })
    } else if t[i] == '\r' {
        parse_from(t, i + 1, st)
    } else {
        parse_from(t, i + 1, AnsiState { run: st.run.push(t[i]), ..st })
    }
}

/// The styled lines of `t`: a last line without a newline counts only
/// when it holds text.
pub open spec fn spec_parse_lines(t: Seq<char>) -> Seq<Seq<(Seq<char>, Style)>> {
    let st = flushed(
        parse_from(
            t,
            0,
            AnsiState { lines: Seq::empty(), line: Seq::empty(), run: Seq::empty(), style: Style::spec_default() },
        ),
    );
    if st.line.len() > 0 {
        st.lines.push(st.line)
    } else {
        st.lines
    }
}

fn flush(run: &mut Vec<char>, style: Style, line: &mut StyledLine)
    ensures
        ({
            let st = flushed(AnsiState { lines: Seq::empty(), line: line_view(old(line)@), run: old(run)@, style });
            &&& final(run)@ == st.run
            &&& line_view(final(line)@) == st.line
        }),
{
    if run.len() > 0 {
        let text = string_from_chars(run.as_slice());
        let ghost before = old(line)@;
        line.push((text, style));
        assert(line_view(line@) =~= line_view(before).push((old(run)@, style)));
        *run = Vec::new();
    }
}

/// Split `text` into lines of styled runs, following its SGR sequences.
pub fn parse_lines(text: &str) -> (r: Vec<StyledLine>)
    ensures
        lines_view(r@) == spec_parse_lines(text@),
{
    let t = str_chars(text);
    let ghost tv = t@;
    let mut lines: Vec<StyledLine> = Vec::new();
    let mut line: StyledLine = Vec::new();
    let mut run: Vec<char> = Vec::new();
    let mut style = Style::plain();
    let ghost init = AnsiState {
        lines: Seq::empty(),
        line: Seq::empty(),
        run: Seq::empty(),
        style: Style::spec_default(),
    };
    assert(lines_view(lines@) =~= Seq::<Seq<(Seq<char>, Style)>>::empty());
    assert(line_view(line@) =~= Seq::<(Seq<char>, Style)>::empty());
    let mut i: usize = 0;
    while i < t.len()
        invariant
            tv == t@,
            i <= tv.len(),
            parse_from(tv, 0, init) == parse_from(
                tv,
                i as int,
                AnsiState { lines: lines_view(lines@), line: line_view(line@), run: run@, style },
            ),
        decreases tv.len() - i,
    {
        let ghost st = AnsiState { lines: lines_view(lines@), line: line_view(line@), run: run@, style };
        let ch = t[i];
        if ch == '\x1b' {
            if i + 1 < t.len() && t[i + 1] == '[' {
                let mut k = i + 2;
                while k < t.len() && !('\x40' <= t[k] && t[k] <= '\x7e')
                    invariant
                        tv == t@,
                        i + 2 <= k <= tv.len(),
                        sequence_end(tv, i + 2) == sequence_end(tv, k as int),
                    decreases tv.len() - k,
                {
                    k += 1;
                }
                let (params, _) = t.as_slice().split_at(k);
                let (_, params) = params.split_at(i + 2);
                assert(params@ =~= tv.subrange(i + 2, k as int));
                if k < t.len() && t[k] == 'm' {
                    let next = apply_sgr(style, params);
                    if next != style {
                        flush(&mut run, style, &mut line);
                        style = next;
                    }
                }
                i = if k < t.len() { k + 1 } else { t.len() };
            } else {
                i += 1;
            }
        } else if ch == '\n' {
            flush(&mut run, style, &mut line);
            let mut finished: StyledLine = Vec::new();
            std::mem::swap(&mut finished, &mut line);
            let ghost before = lines@;
            lines.push(finished);
            assert(lines_view(lines@) =~= lines_view(before).push(line_view(finished@)));
            assert(line_view(line@) =~= Seq::<(Seq<char>, Style)>::empty());
            i += 1;
        } else if ch == '\r' {
            i += 1;
        } else {
            run.push(ch);
            i += 1;
        }
    }
    flush(&mut run, style, &mut line);
    if line.len() > 0 {
        let ghost before = lines@;
        lines.push(line);
        assert(lines_view(lines@) =~= lines_view(before).push(line_view(line@)));
    }
    lines
}

/// The eight standard terminal colours in ANSI order.
pub open spec fn ansi_colors() -> Seq<Color> {
    seq![Color::Black, Color::Red, Color::Green, Color::Yellow, Color::Blue, Color::Magenta, Color::Cyan, Color::Gray]
}

/// Their bright counterparts, in the same order.
pub open spec fn bright_ansi_colors() -> Seq<Color> {
    seq![
        Color::DarkGray,
        Color::LightRed,
        Color::LightGreen,
        Color::LightYellow,
        Color::LightBlue,
        Color::LightMagenta,
        Color::LightCyan,
        Color::White,
    ]
}

/// The SGR colour codes set colours in ANSI order, whatever the style
/// before: `30`-`37` set the foreground to black, red, green, yellow,
/// blue, magenta, cyan and gray, `40`-`47` the background, `90`-`97` and
/// `100`-`107` the bright foreground and background; nothing else changes.
pub proof fn lemma_colour_codes_follow_ansi_order(style: Style, k: int)
    requires
        0 <= k < 8,
    ensures
        apply_codes(style, seq![(30 + k) as u16], 0) == (Style { fg: Some(ansi_colors()[k]), ..style }),
        apply_codes(style, seq![(40 + k) as u16], 0) == (Style { bg: Some(ansi_colors()[k]), ..style }),
        apply_codes(style, seq![(90 + k) as u16], 0) == (Style { fg: Some(bright_ansi_colors()[k]), ..style }),
        apply_codes(style, seq![(100 + k) as u16], 0) == (Style { bg: Some(bright_ansi_colors()[k]), ..style }),
{
    let s = seq![(30 + k) as u16];
    assert(apply_codes(apply_code(style, (30 + k) as u16), s, 1) == apply_code(style, (30 + k) as u16));
    let s = seq![(40 + k) as u16];
    assert(apply_codes(apply_code(style, (40 + k) as u16), s, 1) == apply_code(style, (40 + k) as u16));
    let s = seq![(90 + k) as u16];
    assert(apply_codes(apply_code(style, (90 + k) as u16), s, 1) == apply_code(style, (90 + k) as u16));
    let s = seq![(100 + k) as u16];
    assert(apply_codes(apply_code(style, (100 + k) as u16), s, 1) == apply_code(style, (100 + k) as u16));
}

} // verus!
