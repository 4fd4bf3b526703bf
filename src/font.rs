use vstd::prelude::*;

use crate::coords::{Coords, Dimensions, Rect};
use crate::draw::Color;

verus! {

/// Why a character has no sprite.
#[derive(Clone, Copy, PartialEq, Eq, Structural, Debug)]
pub enum CharSpriteError {
    Whitespace(char),
    Unsupported(char),
}

#[derive(Clone, Copy, PartialEq, Eq, Structural, Debug)]
pub enum CharError {
    Unsupported(char),
}

/// Height of a row of characters in the spritesheet, spacing row included.
pub const ROW_HEIGHT: i32 = 6;

/// Height of the spritesheet.
pub const SHEET_HEIGHT: i32 = 256;

/// Special characters drawn 3 pixels wide, in spritesheet order.
pub open spec fn punct_3() -> Seq<char> {
    seq![
        '_', '/', '\\', '%', '#', '"', '^', '{', '}', '?', '*', '+', '-', '=', '@', '<', '>',
        '\u{a8}', '~', '\u{b0}',
    ]
}

/// Special characters drawn 1 pixel wide.
pub open spec fn punct_1() -> Seq<char> {
    seq!['|', '.', ':', '!']
}

/// Special characters drawn 2 pixels wide.
pub open spec fn punct_2() -> Seq<char> {
    seq![',', ';', '\'', '[', ']', '(', ')', '`']
}

pub open spec fn is_lower(ch: char) -> bool {
    'a' <= ch <= 'z'
}

pub open spec fn is_upper(ch: char) -> bool {
    'A' <= ch <= 'Z'
}

pub open spec fn is_digit(ch: char) -> bool {
    '0' <= ch <= '9'
}

/// The rank of a letter in the alphabet, case ignored.
pub open spec fn letter_rank(ch: char) -> int {
    if is_upper(ch) {
        ch as int - 'A' as int
    } else {
        ch as int - 'a' as int
    }
}

/// Where a letter starts on its row: letters are 4 pixels apart, and the
/// wider m, n, q and w push the ones after them.
pub open spec fn letter_x(l: int) -> int {
    l * 4 + (if l > 12 {
        2int
    } else {
        0
    }) + (if l > 13 {
        1int
    } else {
        0
    }) + (if l > 16 {
        1int
    } else {
        0
    }) + (if l > 22 {
        2int
    } else {
        0
    })
}

/// How wide a letter is: 3 pixels, more for m, n, q and w.
pub open spec fn letter_w(l: int) -> int {
    if l == 12 || l == 22 {
        5
    } else if l == 13 || l == 16 {
        4
    } else {
        3
    }
}

pub open spec fn sprite_rect(x: int, y: int, w: int, h: int) -> Rect {
    Rect {
        top_left: Coords { x: x as i32, y: y as i32 },
        dims: Dimensions { w: w as i32, h: h as i32 },
    }
}

/// The position of the first `ch` in `s` (meaningful when `s` contains it).
pub open spec fn first_index(s: Seq<char>, ch: char) -> int {
    choose|i: int| 0 <= i < s.len() && s[i] == ch && forall|j: int| 0 <= j < i ==> s[j] != ch
}

/// The rectangle of the spritesheet that holds the sprite of `ch`.
pub open spec fn char_sprite_spec(ch: char) -> Result<Rect, CharSpriteError> {
    if is_lower(ch) || is_upper(ch) {
        Ok(sprite_rect(letter_x(letter_rank(ch)), SHEET_HEIGHT - ROW_HEIGHT, letter_w(letter_rank(ch)), 5))
    } else if is_digit(ch) {
        Ok(sprite_rect((ch as int - '0' as int) * 4, SHEET_HEIGHT - ROW_HEIGHT * 2, 3, 5))
    } else if punct_3().contains(ch) {
        Ok(sprite_rect(first_index(punct_3(), ch) * 4, SHEET_HEIGHT - ROW_HEIGHT * 3, 3, 5))
    } else if punct_1().contains(ch) {
        Ok(sprite_rect(first_index(punct_1(), ch) * 2, SHEET_HEIGHT - ROW_HEIGHT * 4, 1, 5))
    } else if punct_2().contains(ch) {
        Ok(sprite_rect(8 + first_index(punct_2(), ch) * 3, SHEET_HEIGHT - ROW_HEIGHT * 4, 2, 5))
    } else if ch == ' ' || ch == '\n' {
        Err(CharSpriteError::Whitespace(ch))
    } else {
        Err(CharSpriteError::Unsupported(ch))
    }
}

/// The position of `ch` in `table`, if it is there.
fn find_char(table: &[char], ch: char) -> (r: Option<usize>)
    ensures
        r is Some <==> table@.contains(ch),
        r matches Some(i) ==> i < table@.len() && table@[i as int] == ch && first_index(table@, ch)
            == i,
{
    let mut i: usize = 0;
    while i < table.len()
        invariant
            0 <= i <= table@.len(),
            forall|j: int| 0 <= j < i ==> table@[j] != ch,
        decreases table@.len() - i,
    {
        if table[i] == ch {
            proof {
                assert(table@.contains(ch));
                let k = first_index(table@, ch);
                assert(0 <= k < table@.len() && table@[k] == ch && forall|j: int|
                    0 <= j < k ==> table@[j] != ch);
                if k < i {
                    assert(table@[k as int] != ch);
                } else if k > i {
                    assert(table@[i as int] != ch);
                }
            }
            return Some(i);
        }
        i = i + 1;
    }
    None
}

/// The sprite of a character in the spritesheet; spaces and line breaks
/// have none, nor do characters that the font lacks.
pub fn char_sprite(ch: char) -> (r: Result<Rect, CharSpriteError>)
    ensures
        r == char_sprite_spec(ch),
{
    let table_3: [char; 20] = [
        '_', '/', '\\', '%', '#', '"', '^', '{', '}', '?', '*', '+', '-', '=', '@', '<', '>',
        '\u{a8}', '~', '\u{b0}',
    ];
    let table_1: [char; 4] = ['|', '.', ':', '!'];
    let table_2: [char; 8] = [',', ';', '\'', '[', ']', '(', ')', '`'];
    assert(table_3@ =~= punct_3());
    assert(table_1@ =~= punct_1());
    assert(table_2@ =~= punct_2());
    if ('a' <= ch && ch <= 'z') || ('A' <= ch && ch <= 'Z') {
        // First row from the bottom in the spritesheet, case insensitive, a few letters are wider.
        let l: i32 = if 'A' <= ch && ch <= 'Z' {
            (ch as u32 - 'A' as u32) as i32
        } else {
            (ch as u32 - 'a' as u32) as i32
        };
        let mut x: i32 = l * 4;
        let mut w: i32 = 3;
        let wider: [(i32, i32); 4] = [(12, 2), (13, 1), (16, 1), (22, 2)];
        let mut k: usize = 0;
        while k < 4
            invariant
                0 <= l < 26,
                k <= 4,
                wider@ == seq![(12i32, 2i32), (13i32, 1i32), (16i32, 1i32), (22i32, 2i32)],
                x == l * 4 + (if k > 0 && l > 12 {
                    2int
                } else {
                    0
                }) + (if k > 1 && l > 13 {
                    1int
                } else {
                    0
                }) + (if k > 2 && l > 16 {
                    1int
                } else {
                    0
                }) + (if k > 3 && l > 22 {
                    2int
                } else {
                    0
                }),
                w == 3 + (if k > 0 && l == 12 {
                    2int
                } else {
                    0
                }) + (if k > 1 && l == 13 {
                    1int
                } else {
                    0
                }) + (if k > 2 && l == 16 {
                    1int
                } else {
                    0
                }) + (if k > 3 && l == 22 {
                    2int
                } else {
                    0
                }),
            decreases 4 - k,
        {
            let (wider_l, how_much_wider) = wider[k];
            if l == wider_l {
                w = w + how_much_wider;
            } else if l > wider_l {
                x = x + how_much_wider;
            }
            k = k + 1;
        }
        Ok(Rect::xywh(x, SHEET_HEIGHT - ROW_HEIGHT, w, 5))
    } else if '0' <= ch && ch <= '9' {
        // Second row from the bottom.
        let x = (ch as u32 - '0' as u32) as i32 * 4;
        Ok(Rect::xywh(x, SHEET_HEIGHT - ROW_HEIGHT * 2, 3, 5))
    } else {
        match find_char(&table_3, ch) {
            Some(i) => {
                // Third row from the bottom, for 3-pixel-wide special characters.
                return Ok(Rect::xywh(i as i32 * 4, SHEET_HEIGHT - ROW_HEIGHT * 3, 3, 5));
            },
            None => {},
        }
        match find_char(&table_1, ch) {
            Some(i) => {
                // Beginning of the fourth row from the bottom, for 1-pixel-wide ones.
                return Ok(Rect::xywh(i as i32 * 2, SHEET_HEIGHT - ROW_HEIGHT * 4, 1, 5));
            },
            None => {},
        }
        match find_char(&table_2, ch) {
            Some(i) => {
                // End of the fourth row from the bottom, for 2-pixel-wide ones.
                return Ok(Rect::xywh(8 + i as i32 * 3, SHEET_HEIGHT - ROW_HEIGHT * 4, 2, 5));
            },
            None => {},
        }
        if ch == ' ' || ch == '\n' {
            Err(CharSpriteError::Whitespace(ch))
        } else {
            Err(CharSpriteError::Unsupported(ch))
        }
    }
}

/// How text is drawn.
#[derive(Clone, Copy, PartialEq, Eq, Structural, Debug)]
pub struct Font {
    /// By how many times do we make the sprites bigger?
    pub size_factor: i32,
    /// The number of pixels between each character that has a sprite
    /// (note that the space character does not have a sprite).
    pub horizontal_spacing: i32,
    /// The width of space characters in pixels.
    pub space_width: i32,
    /// The color of the character sprites.
    pub foreground: Color,
    /// The background can be filled with the given color, if any.
    pub background: Option<Color>,
    /// How many margin pixels on the edges? Each axis has two margins, one on each side.
    pub margins: Dimensions,
}

/// A bound on every size of a font, which keeps text measures in `i32`.
pub const MAX_FONT_SIZE: i32 = 1000;

/// A bound on the length of a line of text.
pub const MAX_LINE_LEN: usize = 100000;

/// A character with a sprite that is drawn at `dst`.
#[derive(Clone, Copy, PartialEq, Eq, Structural, Debug)]
pub struct Glyph {
    /// The position of the character in the text.
    pub index: usize,
    pub dst: Rect,
    pub sprite: Rect,
}

pub open spec fn can_space(ch: char) -> bool {
    ch != ' ' && ch != '\n'
}

impl Font {
    /// Sizes are non-negative and at most `MAX_FONT_SIZE`.
    pub open spec fn wf(self) -> bool {
        &&& 0 <= self.size_factor <= MAX_FONT_SIZE
        &&& 0 <= self.horizontal_spacing <= MAX_FONT_SIZE
        &&& 0 <= self.space_width <= MAX_FONT_SIZE
        &&& 0 <= self.margins.w <= MAX_FONT_SIZE
        &&& 0 <= self.margins.h <= MAX_FONT_SIZE
    }

    /// The width of a character in pixels, or the character that the font lacks.
    pub open spec fn char_width_spec(self, ch: char) -> Result<int, char> {
        match char_sprite_spec(ch) {
            Ok(sprite) => Ok(sprite.dims.w * self.size_factor),
            Err(CharSpriteError::Whitespace(c)) => if c == ' ' {
                Ok(self.space_width as int)
            } else {
                Ok(0)
            },
            Err(CharSpriteError::Unsupported(c)) => Err(c),
        }
    }

    /// The width of a line of text: the widths of its characters, plus the
    /// spacing between each two neighbours that both have a sprite; or the
    /// first character that the font lacks.
    pub open spec fn line_width(self, s: Seq<char>) -> Result<int, char>
        decreases s.len(),
    {
        if s.len() == 0 {
            Ok(0)
        } else {
            match self.line_width(s.drop_last()) {
                Err(c) => Err(c),
                Ok(w) => match self.char_width_spec(s.last()) {
                    Err(c) => Err(c),
                    Ok(cw) => Ok(
                        w + cw + if s.len() >= 2 && can_space(s[s.len() - 2]) && can_space(
                            s.last(),
                        ) {
                            self.horizontal_spacing as int
                        } else {
                            0
                        },
                    ),
                },
            }
        }
    }

    pub fn char_width(&self, ch: char) -> (r: Result<i32, CharError>)
        requires
            self.wf(),
        ensures
            r matches Ok(w) ==> self.char_width_spec(ch) == Ok::<int, char>(w as int) && 0 <= w <= 5
                * MAX_FONT_SIZE,
            r matches Err(CharError::Unsupported(c)) ==> self.char_width_spec(ch) == Err::<
                int,
                char,
            >(c),
    {
        match char_sprite(ch) {
            Ok(sprite) => {
                assert(0 <= sprite.dims.w <= 5);
                assert(sprite.dims.w * self.size_factor <= 5 * MAX_FONT_SIZE) by (nonlinear_arith)
                    requires
                        0 <= sprite.dims.w <= 5,
                        0 <= self.size_factor <= MAX_FONT_SIZE,
                ;
                assert(sprite.dims.w * self.size_factor >= 0) by (nonlinear_arith)
                    requires
                        0 <= sprite.dims.w,
                        0 <= self.size_factor,
                ;
                Ok(sprite.dims.w * self.size_factor)
            },
            Err(CharSpriteError::Whitespace(whitespace)) => {
                if whitespace == ' ' {
                    Ok(self.space_width)
                } else {
                    Ok(0)
                }
            },
            Err(CharSpriteError::Unsupported(unsupported)) => Err(CharError::Unsupported(unsupported)),
        }
    }

    pub fn char_can_have_spacing_around_it(&self, ch: char) -> (r: bool)
        ensures
            r == can_space(ch),
    {
        ch != ' ' && ch != '\n'
    }

    /// The width in pixels of a line of text, without margins.
    pub fn text_line_width(&self, text: &[char]) -> (r: Result<i32, CharError>)
        requires
            self.wf(),
            text@.len() <= MAX_LINE_LEN,
        ensures
            r matches Ok(w) ==> self.line_width(text@) == Ok::<int, char>(w as int) && 0 <= w
                <= text@.len() * 6 * MAX_FONT_SIZE,
            r matches Err(CharError::Unsupported(c)) ==> self.line_width(text@) == Err::<int, char>(
                c,
            ),
    {
        let mut width: i32 = 0;
        let mut last_can_have_spacing = false;
        let mut i: usize = 0;
        while i < text.len()
            invariant
                self.wf(),
                text@.len() <= MAX_LINE_LEN,
                0 <= i <= text@.len(),
                self.line_width(text@.subrange(0, i as int)) == Ok::<int, char>(width as int),
                0 <= width <= i * 6 * MAX_FONT_SIZE,
                last_can_have_spacing == (i > 0 && can_space(text@[i - 1])),
            decreases text@.len() - i,
        {
            let ch = text[i];
            let ghost pre = text@.subrange(0, i as int);
            let ghost next = text@.subrange(0, i + 1);
            assert(next.drop_last() =~= pre);
            assert(next.last() == ch);
            let cw = match self.char_width(ch) {
                Ok(cw) => cw,
                Err(e) => {
                    proof {
                        lemma_line_width_err(*self, text@, i as int);
                    }
                    return Err(e);
                },
            };
            assert(cw <= 5 * MAX_FONT_SIZE);
            width = width + cw;
            let current_can_have_spacing = self.char_can_have_spacing_around_it(ch);
            if last_can_have_spacing && current_can_have_spacing {
                width = width + self.horizontal_spacing;
            }
            last_can_have_spacing = current_can_have_spacing;
            assert((i + 1) * 6 * MAX_FONT_SIZE == i * 6 * MAX_FONT_SIZE + 6 * MAX_FONT_SIZE)
                by (nonlinear_arith);
            i = i + 1;
        }
        assert(text@.subrange(0, i as int) =~= text@);
        Ok(width)
    }

    /// The box that a line of text fills, margins included, from `top_left`.
    pub fn text_line_box(&self, text: &[char], top_left: Coords) -> (r: Result<Rect, CharError>)
        requires
            self.wf(),
            text@.len() <= MAX_LINE_LEN,
        ensures
            r matches Ok(b) ==> b.top_left == top_left && self.line_width(text@) == Ok::<int, char>(
                b.dims.w - 2 * self.margins.w,
            ) && b.dims.h == 5 * self.size_factor + 2 * self.margins.h,
            r matches Err(CharError::Unsupported(c)) ==> self.line_width(text@) == Err::<int, char>(
                c,
            ),
    {
        let width = self.text_line_width(text)?;
        assert(text@.len() * 6 * MAX_FONT_SIZE <= MAX_LINE_LEN * 6 * MAX_FONT_SIZE) by (nonlinear_arith)
            requires
                text@.len() <= MAX_LINE_LEN,
        ;
        Ok(
            Rect {
                top_left,
                dims: Dimensions {
                    w: width + self.margins.w * 2,
                    h: 5 * self.size_factor + self.margins.h * 2,
                },
            },
        )
    }

    /// `g` is the glyph of the character `k` of `text` drawn from `top_left`:
    /// its sprite, scaled, on the row after the top margin, ending where the
    /// first `k + 1` characters end after the left margin.
    pub open spec fn glyph_of(self, text: Seq<char>, top_left: Coords, k: int, g: Glyph) -> bool {
        &&& 0 <= k < text.len()
        &&& char_sprite_spec(text[k]) == Ok::<Rect, CharSpriteError>(g.sprite)
        &&& g.dst.dims.w == g.sprite.dims.w * self.size_factor
        &&& g.dst.dims.h == g.sprite.dims.h * self.size_factor
        &&& g.dst.top_left.y == top_left.y + self.margins.h
        &&& self.line_width(text.subrange(0, k + 1)) == Ok::<int, char>(
            g.dst.top_left.x + g.dst.dims.w - top_left.x - self.margins.w,
        )
    }

    /// Each of `gs` is the glyph of the character of `text` that it names.
    pub open spec fn glyphs_of(self, text: Seq<char>, top_left: Coords, gs: Seq<Glyph>) -> bool {
        forall|j: int|
            0 <= j < gs.len() ==> self.glyph_of(text, top_left, gs[j].index as int, #[trigger] gs[j])
    }

    /// Where each character with a sprite is drawn when the line of text is
    /// drawn from `top_left`, in the order of the text.
    #[verifier::rlimit(50)]
    pub fn text_line_glyphs(&self, text: &[char], top_left: Coords) -> (r: Result<Vec<Glyph>, CharError>)
        requires
            self.wf(),
            text@.len() <= MAX_LINE_LEN,
            -0x1000_0000 <= top_left.x <= 0x1000_0000,
            -0x1000_0000 <= top_left.y <= 0x1000_0000,
        ensures
            r matches Err(CharError::Unsupported(c)) ==> self.line_width(text@) == Err::<int, char>(
                c,
            ),
            r is Ok ==> self.line_width(text@) is Ok,
            r matches Ok(glyphs) ==> self.glyphs_of(text@, top_left, glyphs@),
    {
        let mut glyphs: Vec<Glyph> = Vec::new();
        let mut x: i32 = top_left.x + self.margins.w;
        let y: i32 = top_left.y + self.margins.h;
        let mut width: i32 = 0;
        let mut last_can_have_spacing = false;
        let mut i: usize = 0;
        while i < text.len()
            invariant
                self.wf(),
                text@.len() <= MAX_LINE_LEN,
                -0x1000_0000 <= top_left.x <= 0x1000_0000,
                y == top_left.y + self.margins.h,
                0 <= i <= text@.len(),
                self.line_width(text@.subrange(0, i as int)) == Ok::<int, char>(width as int),
                0 <= width <= i * 6000,
                x == top_left.x + self.margins.w + width,
                last_can_have_spacing == (i > 0 && can_space(text@[i - 1])),
                self.glyphs_of(text@, top_left, glyphs@),
            decreases text@.len() - i,
        {
            let ch = text[i];
            let ghost pre = text@.subrange(0, i as int);
            let ghost next = text@.subrange(0, i + 1);
            assert(next.drop_last() =~= pre);
            assert(next.last() == ch);
            let cw = match self.char_width(ch) {
                Ok(cw) => cw,
                Err(e) => {
                    proof {
                        lemma_line_width_err(*self, text@, i as int);
                    }
                    return Err(e);
                },
            };
            let current_can_have_spacing = self.char_can_have_spacing_around_it(ch);
            if last_can_have_spacing && current_can_have_spacing {
                width = width + self.horizontal_spacing;
                x = x + self.horizontal_spacing;
            }
            match char_sprite(ch) {
                Ok(sprite) => {
                    assert(sprite.dims.h * self.size_factor <= 5 * MAX_FONT_SIZE) by (nonlinear_arith)
                        requires
                            sprite.dims.h == 5,
                            0 <= self.size_factor <= MAX_FONT_SIZE,
                    ;
                    let g = Glyph {
                        index: i,
                        dst: Rect {
                            top_left: Coords { x, y },
                            dims: Dimensions { w: cw, h: sprite.dims.h * self.size_factor },
                        },
                        sprite,
                    };
                    assert(self.glyph_of(text@, top_left, i as int, g));
                    let ghost before = glyphs@;
                    glyphs.push(g);
                    proof {
                        assert forall|j: int| 0 <= j < glyphs@.len() implies self.glyph_of(
                            text@,
                            top_left,
                            glyphs@[j].index as int,
                            #[trigger] glyphs@[j],
                        ) by {
                            if j < before.len() {
                                assert(glyphs@[j] == before[j]);
                            }
                        }
                    }
                },
                Err(_) => {},
            }
            width = width + cw;
            x = x + cw;
            last_can_have_spacing = current_can_have_spacing;
            i = i + 1;
        }
        assert(text@.subrange(0, i as int) =~= text@);
        Ok(glyphs)
    }
}

proof fn lemma_line_width_err(f: Font, s: Seq<char>, i: int)
    requires
        0 <= i < s.len(),
        f.line_width(s.subrange(0, i)) is Ok,
        f.char_width_spec(s[i]) is Err,
    ensures
        f.line_width(s) == Err::<int, char>(f.char_width_spec(s[i])->Err_0),
    decreases s.len() - i,
{
    let c = f.char_width_spec(s[i])->Err_0;
    assert forall|n: int| i < n <= s.len() implies #[trigger] f.line_width(s.subrange(0, n)) == Err::<
        int,
        char,
    >(c) by {
        lemma_line_width_err_prefix(f, s, i, n);
    }
    assert(s.subrange(0, s.len() as int) =~= s);
}

proof fn lemma_line_width_err_prefix(f: Font, s: Seq<char>, i: int, n: int)
    requires
        0 <= i < n <= s.len(),
        f.line_width(s.subrange(0, i)) is Ok,
        f.char_width_spec(s[i]) is Err,
    ensures
        f.line_width(s.subrange(0, n)) == Err::<int, char>(f.char_width_spec(s[i])->Err_0),
    decreases n - i,
{
    let t = s.subrange(0, n);
    assert(t.drop_last() =~= s.subrange(0, n - 1));
    if n == i + 1 {
        assert(t.last() == s[i]);
    } else {
        lemma_line_width_err_prefix(f, s, i, n - 1);
    }
}

} // verus!
