use glyph_atlas::atlas::{AtlasTexture, TileAlignment, TileInfo, TileRequest};
use glyph_atlas::error::AtlasError;
use glyph_atlas::point::Point;
use glyph_atlas::size::Size;
use glyph_atlas::tileset::Tileset;

fn tile(page: &mut AtlasTexture, tileset: usize, width: i32, height: i32) -> TileInfo {
    let req = TileRequest {
        tileset,
        size: Size::new(width, height),
        offset: Point::new(0, 0),
        spacing: Size::new(1, 1),
        alignment: TileAlignment::Unknown,
        is_animated: false,
    };
    page.add(0, &req).unwrap()
}

#[test]
fn chained_lookup_scenario() {
    let mut page = AtlasTexture::new(Size::new(4096, 4096));
    let mut ascii = Tileset::new('\u{0}');
    for _ in 0..0x80 {
        let t = tile(&mut page, 0, 8, 16);
        ascii.push_tile(t);
    }
    let mut symbols = Tileset::new('\u{80}');
    for _ in 0..0x40 {
        let t = tile(&mut page, 1, 8, 16);
        symbols.push_tile(t);
    }
    let expected_a = page.tiles()[0x41];
    let expected_sym = page.tiles()[0x80 + 0x10];
    ascii.add_tileset(symbols);

    let a = ascii.get('\u{41}').unwrap();
    assert_eq!(a, expected_a);
    assert_eq!(a.tileset, 0);
    let s = ascii.get('\u{90}').unwrap();
    assert_eq!(s, expected_sym);
    assert_eq!(s.tileset, 1);
    assert_eq!(ascii.get('\u{FFFF}'), Err(AtlasError::GlyphNotFound));
}

#[test]
fn first_match_wins() {
    let mut page = AtlasTexture::new(Size::new(256, 256));
    let mut base = Tileset::new('a');
    let mut first = Tileset::new('x');
    let mut second = Tileset::new('x');
    let t1 = tile(&mut page, 1, 8, 8);
    let t2 = tile(&mut page, 2, 8, 8);
    first.push_tile(t1);
    second.push_tile(t2);
    base.add_tileset(first);
    base.add_tileset(second);
    assert_eq!(base.get('x'), Ok(t1));
    assert_eq!(base.get('a'), Err(AtlasError::GlyphNotFound));
}

#[test]
fn range_predicates_and_metadata() {
    let mut page = AtlasTexture::new(Size::new(256, 256));
    let mut set = Tileset::new('A');
    assert_eq!(set.get_offset(), 'A');
    assert!(!set.is_font_offset('A'));
    assert!(!set.provides('A'));
    assert_eq!(set.get_bounding_box_size(), Size::new(0, 0));
    set.push_tile(tile(&mut page, 0, 7, 12));
    set.push_tile(tile(&mut page, 0, 9, 10));
    assert!(set.provides('A'));
    assert!(set.provides('B'));
    assert!(!set.provides('C'));
    assert!(!set.provides('@'));
    assert!(set.is_font_offset('A'));
    assert!(set.is_font_offset('B'));
    assert!(!set.is_font_offset('C'));
    assert_eq!(set.get_bounding_box_size(), Size::new(9, 12));
    assert_eq!(set.get_spacing(), Size::new(1, 1));
    set.set_spacing(Size::new(9, 14));
    assert_eq!(set.get_spacing(), Size::new(9, 14));
}
