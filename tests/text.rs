use caravan::coords::{Coords, Dimensions, Rect};
use caravan::draw::{Color, DrawSpriteEffects, SoundEffect};
use caravan::font::{char_sprite, CharError, CharSpriteError, Font};

fn font() -> Font {
    Font {
        size_factor: 3,
        horizontal_spacing: 2,
        space_width: 7,
        foreground: Color::white(),
        background: Some(Color::black()),
        margins: Dimensions::new(3, 3),
    }
}

fn chars(s: &str) -> Vec<char> {
    s.chars().collect()
}

#[test]
fn letter_sprites() {
    assert_eq!(char_sprite('a'), Ok(Rect::xywh(0, 250, 3, 5)));
    assert_eq!(char_sprite('A'), Ok(Rect::xywh(0, 250, 3, 5)));
    assert_eq!(char_sprite('l'), Ok(Rect::xywh(44, 250, 3, 5)));
    assert_eq!(char_sprite('m'), Ok(Rect::xywh(48, 250, 5, 5)));
    assert_eq!(char_sprite('n'), Ok(Rect::xywh(54, 250, 4, 5)));
    assert_eq!(char_sprite('o'), Ok(Rect::xywh(59, 250, 3, 5)));
    assert_eq!(char_sprite('q'), Ok(Rect::xywh(67, 250, 4, 5)));
    assert_eq!(char_sprite('w'), Ok(Rect::xywh(92, 250, 5, 5)));
    assert_eq!(char_sprite('z'), Ok(Rect::xywh(106, 250, 3, 5)));
}

#[test]
fn digit_and_punctuation_sprites() {
    assert_eq!(char_sprite('0'), Ok(Rect::xywh(0, 244, 3, 5)));
    assert_eq!(char_sprite('7'), Ok(Rect::xywh(28, 244, 3, 5)));
    assert_eq!(char_sprite('_'), Ok(Rect::xywh(0, 238, 3, 5)));
    assert_eq!(char_sprite('>'), Ok(Rect::xywh(64, 238, 3, 5)));
    assert_eq!(char_sprite('°'), Ok(Rect::xywh(76, 238, 3, 5)));
    assert_eq!(char_sprite('|'), Ok(Rect::xywh(0, 232, 1, 5)));
    assert_eq!(char_sprite('!'), Ok(Rect::xywh(6, 232, 1, 5)));
    assert_eq!(char_sprite(','), Ok(Rect::xywh(8, 232, 2, 5)));
    assert_eq!(char_sprite('`'), Ok(Rect::xywh(29, 232, 2, 5)));
}

#[test]
fn sprite_errors() {
    assert_eq!(char_sprite(' '), Err(CharSpriteError::Whitespace(' ')));
    assert_eq!(char_sprite('\n'), Err(CharSpriteError::Whitespace('\n')));
    assert_eq!(char_sprite('é'), Err(CharSpriteError::Unsupported('é')));
}

#[test]
fn char_widths() {
    let f = font();
    assert_eq!(f.char_width('a'), Ok(9));
    assert_eq!(f.char_width('m'), Ok(15));
    assert_eq!(f.char_width(' '), Ok(7));
    assert_eq!(f.char_width('\n'), Ok(0));
    assert_eq!(f.char_width('é'), Err(CharError::Unsupported('é')));
    assert!(f.char_can_have_spacing_around_it('x'));
    assert!(!f.char_can_have_spacing_around_it(' '));
}

#[test]
fn line_width_adds_spacing_between_sprites_only() {
    let f = font();
    assert_eq!(f.text_line_width(&chars("")), Ok(0));
    // 'a' 9 + 2 + 'b' 9 = 20
    assert_eq!(f.text_line_width(&chars("ab")), Ok(20));
    // 'a' 9 + ' ' 7 + 'b' 9 = 25, no spacing around the space
    assert_eq!(f.text_line_width(&chars("a b")), Ok(25));
    assert_eq!(f.text_line_width(&chars("hp: 12")), Ok(9 + 2 + 9 + 2 + 3 + 7 + 9 + 2 + 9));
    assert_eq!(f.text_line_width(&chars("aé")), Err(CharError::Unsupported('é')));
}

#[test]
fn line_box_and_glyphs() {
    let f = font();
    let b = f.text_line_box(&chars("ab"), Coords::new(10, 20)).unwrap();
    assert_eq!(b, Rect::xywh(10, 20, 26, 21));
    let glyphs = f.text_line_glyphs(&chars("a b"), Coords::new(10, 20)).unwrap();
    assert_eq!(glyphs.len(), 2);
    assert_eq!(glyphs[0].index, 0);
    assert_eq!(glyphs[0].dst, Rect::xywh(13, 23, 9, 15));
    assert_eq!(glyphs[0].sprite, Rect::xywh(0, 250, 3, 5));
    assert_eq!(glyphs[1].index, 2);
    assert_eq!(glyphs[1].dst, Rect::xywh(29, 23, 9, 15));
    assert!(f.text_line_glyphs(&chars("?é"), Coords::new(0, 0)).is_err());
}

#[test]
fn colors_and_effects() {
    let c = Color::rgb_u8(1, 2, 3);
    assert_eq!(c.raw(), [1, 2, 3, 255]);
    assert_eq!((c.r(), c.g(), c.b(), c.a()), (1, 2, 3, 255));
    assert_eq!(Color::rgba_u8(9, 8, 7, 6).raw(), [9, 8, 7, 6]);
    assert_eq!(Color::black().raw(), [0, 0, 0, 255]);
    let e = DrawSpriteEffects::none();
    assert!(!e.flip_horizontally && !e.flip_vertically && !e.flip_diagonally_id);
    assert_eq!(e.paint, None);
    assert_ne!(SoundEffect::Pew, SoundEffect::Hit);
}
