use glyph_atlas::allocator::{CellRect, RegionAllocator};
use glyph_atlas::atlas::{
    Atlas, AtlasTexture, TextureFilter, TileAlignment, TileInfo, TileRequest,
};
use glyph_atlas::error::{AllocationFailure, AtlasError};
use glyph_atlas::point::Point;
use glyph_atlas::rectangle::Rectangle;
use glyph_atlas::size::Size;

fn request(width: i32, height: i32, is_animated: bool) -> TileRequest {
    TileRequest {
        tileset: 0,
        size: Size::new(width, height),
        offset: Point::new(0, 0),
        spacing: Size::new(1, 1),
        alignment: TileAlignment::TopLeft,
        is_animated,
    }
}

fn overlaps(a: &Rectangle<i32>, b: &Rectangle<i32>) -> bool {
    a.x < b.x + b.width && b.x < a.x + a.width && a.y < b.y + b.height && b.y < a.y + a.height
}

fn no_two_overlap(tiles: &[TileInfo]) -> bool {
    for i in 0..tiles.len() {
        for j in 0..tiles.len() {
            if i != j && overlaps(&tiles[i].total_space, &tiles[j].total_space) {
                return false;
            }
        }
    }
    true
}

#[test]
fn first_fit_scenario() {
    let mut page = AtlasTexture::new(Size::new(256, 256));
    let a = page.add(0, &request(32, 32, false)).unwrap();
    assert_eq!(a.total_space, Rectangle::new(0, 0, 32, 32));
    let b = page.add(0, &request(32, 32, false)).unwrap();
    assert_eq!(b.total_space, Rectangle::new(32, 0, 32, 32));
    assert_eq!(page.remove(&a), Ok(()));
    let c = page.add(0, &request(64, 64, false)).unwrap();
    assert_eq!(c.total_space, Rectangle::new(64, 0, 64, 64));
    assert_eq!(page.size(), Size::new(256, 256));
}

#[test]
fn tile_fields_follow_request() {
    let mut page = AtlasTexture::new(Size::new(256, 128));
    let t = page.add(3, &request(20, 10, true)).unwrap();
    assert_eq!(t.page, 3);
    assert_eq!(t.total_space, Rectangle::new(0, 0, 32, 16));
    assert_eq!(t.useful_space, Rectangle::new(0, 0, 20, 10));
    assert_eq!(t.texture_coords.u2, 20);
    assert_eq!(t.texture_coords.v2, 10);
    assert_eq!(t.texture_coords.width, 256);
    assert_eq!(t.texture_coords.height, 128);
    assert!(t.is_animated);
    assert_eq!(t.alignment, TileAlignment::TopLeft);
}

#[test]
fn tiles_never_overlap() {
    let mut page = AtlasTexture::new(Size::new(128, 128));
    let sizes = [(20, 20), (40, 16), (16, 50), (33, 33), (64, 10), (10, 64)];
    let mut placed = Vec::new();
    for (w, h) in sizes.iter() {
        placed.push(page.add(0, &request(*w, *h, false)).unwrap());
    }
    assert_eq!(page.remove(&placed[1]), Ok(()));
    assert_eq!(page.remove(&placed[3]), Ok(()));
    page.add(0, &request(48, 16, false)).unwrap();
    page.add(0, &request(16, 16, false)).unwrap();
    assert!(no_two_overlap(page.tiles()));
}

#[test]
fn add_then_remove_restores() {
    let mut page = AtlasTexture::new(Size::new(128, 128));
    page.add(0, &request(16, 16, false)).unwrap();
    let before: Vec<TileInfo> = page.tiles().clone();
    let t = page.add(0, &request(30, 30, false)).unwrap();
    assert_eq!(page.remove(&t), Ok(()));
    assert_eq!(page.tiles(), &before);
    let again = page.add(0, &request(30, 30, false)).unwrap();
    assert_eq!(again, t);
}

#[test]
fn removing_twice_is_invalid_handle() {
    let mut page = AtlasTexture::new(Size::new(64, 64));
    let t = page.add(0, &request(16, 16, false)).unwrap();
    assert_eq!(page.remove(&t), Ok(()));
    assert_eq!(page.remove(&t), Err(AtlasError::InvalidHandle));
}

#[test]
fn full_page_reports_no_space() {
    let mut page = AtlasTexture::new(Size::new(32, 32));
    page.add(0, &request(32, 32, false)).unwrap();
    assert_eq!(
        page.add(0, &request(16, 16, false)),
        Err(AtlasError::AllocationFailed(AllocationFailure::NoSpace))
    );
}

#[test]
fn oversized_or_empty_request_exceeds_capacity() {
    let mut page = AtlasTexture::new(Size::new(64, 64));
    let exceeds = Err(AtlasError::AllocationFailed(AllocationFailure::ExceedsCapacity));
    assert_eq!(page.add(0, &request(5000, 10, false)), exceeds);
    assert_eq!(page.add(0, &request(0, 10, false)), exceeds);
    let mut atlas = Atlas::new(256);
    assert_eq!(atlas.add(&request(10, 4097, false)), exceeds);
    assert_eq!(atlas.page_count(), 0);
}

#[test]
fn growth_keeps_pixels_and_rescales_coordinates() {
    let mut page = AtlasTexture::new(Size::new(32, 32));
    let t = page.add(0, &request(20, 12, false)).unwrap();
    assert!(page.try_grow());
    assert_eq!(page.size(), Size::new(64, 64));
    let after = page.tiles()[0];
    assert_eq!(after.total_space, t.total_space);
    assert_eq!(after.useful_space, t.useful_space);
    assert_eq!(after.texture_coords.u2, t.texture_coords.u2);
    assert_eq!(after.texture_coords.width, 64);
    assert_eq!(after.texture_coords.height, 64);
    let u = page.add(0, &request(32, 32, false)).unwrap();
    assert_eq!(u.total_space, Rectangle::new(32, 0, 32, 32));
}

#[test]
fn growth_stops_at_largest_page() {
    let mut page = AtlasTexture::new(Size::new(4096, 4096));
    assert!(!page.try_grow());
    let mut wide = AtlasTexture::new(Size::new(3000, 64));
    assert!(wide.try_grow());
    assert_eq!(wide.size(), Size::new(4096, 128));
}

#[test]
fn allocator_growth_must_not_shrink() {
    let mut grid = RegionAllocator::new(4, 4);
    assert_eq!(grid.grow(3, 8), Err(AtlasError::GrowthRejected));
    assert_eq!(grid.cols(), 4);
    assert_eq!(grid.grow(4, 8), Ok(()));
    assert_eq!(grid.rows(), 8);
}

#[test]
fn allocator_free_refuses_unknown_block() {
    let mut grid = RegionAllocator::new(4, 4);
    let c = grid.allocate(2, 2, false).unwrap();
    assert_eq!(c, CellRect { x: 0, y: 0, w: 2, h: 2 });
    assert_eq!(grid.free(CellRect { x: 0, y: 0, w: 1, h: 1 }), Err(AtlasError::InvalidHandle));
    assert_eq!(grid.free(c), Ok(()));
    assert_eq!(grid.len(), 0);
    assert_eq!(grid.allocate(5, 1, false), None);
}

#[test]
fn defragment_compacts_and_keeps_animated_tiles() {
    let mut page = AtlasTexture::new(Size::new(64, 16));
    let a = page.add(0, &request(16, 16, false)).unwrap();
    let b = page.add(0, &request(16, 16, true)).unwrap();
    let c = page.add(0, &request(16, 16, false)).unwrap();
    let d = page.add(0, &request(16, 16, false)).unwrap();
    assert_eq!(page.remove(&a), Ok(()));
    assert_eq!(page.remove(&c), Ok(()));
    let area_before: i32 = page.tiles().iter().map(|t| t.total_space.area()).sum();
    let moves = page.defragment();
    let area_after: i32 = page.tiles().iter().map(|t| t.total_space.area()).sum();
    assert!(area_after <= area_before);
    assert_eq!(page.tiles()[0], b);
    assert_eq!(page.tiles()[1].total_space, Rectangle::new(0, 0, 16, 16));
    assert_eq!(moves.len(), 1);
    assert_eq!(moves[0].tile, 1);
    assert_eq!(moves[0].from, d.total_space);
    assert_eq!(moves[0].to, Rectangle::new(0, 0, 16, 16));
    assert!(no_two_overlap(page.tiles()));
}

#[test]
fn page_clean_up_evicts_dead_tiles() {
    let mut page = AtlasTexture::new(Size::new(64, 64));
    let a = page.add(0, &request(16, 16, false)).unwrap();
    let b = page.add(0, &request(16, 16, false)).unwrap();
    let c = page.add(0, &request(16, 16, false)).unwrap();
    page.clean_up(&vec![true, false, true]);
    assert_eq!(page.tiles(), &vec![a, c]);
    let again = page.add(0, &request(16, 16, false)).unwrap();
    assert_eq!(again.total_space, b.total_space);
}

#[test]
fn page_clear_and_filter() {
    let mut page = AtlasTexture::new(Size::new(64, 64));
    page.add(0, &request(16, 16, false)).unwrap();
    page.apply_texture_filter(TextureFilter::Nearest);
    assert_eq!(page.filter(), TextureFilter::Nearest);
    page.clear();
    assert_eq!(page.tiles().len(), 0);
    assert_eq!(page.size(), Size::new(64, 64));
    let t = page.add(0, &request(16, 16, false)).unwrap();
    assert_eq!(t.total_space, Rectangle::new(0, 0, 16, 16));
}

#[test]
fn atlas_grows_then_adds_pages() {
    let mut atlas = Atlas::new(32);
    let a = atlas.add(&request(32, 32, false)).unwrap();
    assert_eq!(a.page, 0);
    let b = atlas.add(&request(32, 32, false)).unwrap();
    assert_eq!(b.page, 0);
    assert_eq!(atlas.page(0).size(), Size::new(64, 64));
    assert_eq!(b.total_space, Rectangle::new(32, 0, 32, 32));
    let big = atlas.add(&request(3000, 100, false)).unwrap();
    assert_eq!(big.page, 1);
    assert_eq!(atlas.page(1).size(), Size::new(4096, 4096));
    assert_eq!(atlas.page_count(), 2);
}

#[test]
fn atlas_tile_lies_in_free_space() {
    let mut atlas = Atlas::new(64);
    let mut all = Vec::new();
    for k in 0..20 {
        let t = atlas.add(&request(10 + k, 24, k % 3 == 0)).unwrap();
        all.push(t);
    }
    for p in 0..atlas.page_count() {
        assert!(no_two_overlap(atlas.page(p).tiles()));
        let size = atlas.page(p).size();
        for t in atlas.page(p).tiles() {
            assert!(Rectangle::new(0, 0, size.width, size.height).contains_rectangle(t.total_space));
        }
    }
    for t in all.iter() {
        let stored = atlas.page(t.page).tiles();
        assert!(stored.iter().any(|s| s.total_space == t.total_space && s.useful_space == t.useful_space));
    }
}

#[test]
fn atlas_remove_routes_to_page() {
    let mut atlas = Atlas::new(32);
    let a = atlas.add(&request(32, 32, false)).unwrap();
    assert_eq!(atlas.remove(&a), Ok(()));
    assert_eq!(atlas.remove(&a), Err(AtlasError::InvalidHandle));
    let mut stray = a;
    stray.page = 7;
    assert_eq!(atlas.remove(&stray), Err(AtlasError::InvalidHandle));
}

#[test]
fn atlas_clean_up_drops_empty_last_pages() {
    let mut atlas = Atlas::new(32);
    atlas.add(&request(32, 32, false)).unwrap();
    atlas.add(&request(4000, 4000, false)).unwrap();
    assert_eq!(atlas.page_count(), 2);
    let map = atlas.clean_up(&vec![vec![true], vec![false]]);
    assert_eq!(map, vec![Some(0), None]);
    assert_eq!(atlas.page_count(), 1);
    assert_eq!(atlas.page(0).tiles().len(), 1);
}

#[test]
fn atlas_clean_up_drops_empty_middle_pages_and_renumbers() {
    let mut atlas = Atlas::new(32);
    atlas.add(&request(32, 32, false)).unwrap();
    atlas.add(&request(4000, 4000, false)).unwrap();
    let last = atlas.add(&request(100, 4000, false)).unwrap();
    assert_eq!(last.page, 2);
    let map = atlas.clean_up(&vec![vec![false], vec![false], vec![true]]);
    assert_eq!(map, vec![None, None, Some(0)]);
    assert_eq!(atlas.page_count(), 1);
    let moved = atlas.page(0).tiles()[0];
    assert_eq!(moved.page, 0);
    assert_eq!(moved.total_space, last.total_space);
    assert_eq!(atlas.remove(&last), Err(AtlasError::InvalidHandle));
    assert_eq!(atlas.remove(&moved), Ok(()));
}

#[test]
fn remove_refuses_handles_of_other_pages_and_stale_ones() {
    let mut page = AtlasTexture::new(Size::new(64, 64));
    let t = page.add(0, &request(16, 16, false)).unwrap();
    let mut other = t;
    other.page = 1;
    assert_eq!(page.remove(&other), Err(AtlasError::InvalidHandle));
    assert_eq!(page.tiles().len(), 1);
    assert_eq!(page.remove(&t), Ok(()));
    let newer = page.add(0, &request(16, 16, true)).unwrap();
    assert_eq!(newer.total_space, t.total_space);
    assert_eq!(page.remove(&t), Err(AtlasError::InvalidHandle));
    assert_eq!(page.tiles(), &vec![newer]);
}

#[test]
fn atlas_add_keeps_other_tiles_in_place() {
    let mut atlas = Atlas::new(32);
    let a = atlas.add(&request(16, 16, false)).unwrap();
    let big = atlas.add(&request(4000, 100, false)).unwrap();
    assert_eq!(big.page, 1);
    let before_big_page: Vec<TileInfo> = atlas.page(1).tiles().clone();
    let c = atlas.add(&request(32, 32, false)).unwrap();
    assert_eq!(c.page, 0);
    assert_eq!(atlas.page(0).size(), Size::new(64, 64));
    let first = atlas.page(0).tiles()[0];
    assert_eq!(first.total_space, a.total_space);
    assert_eq!(first.texture_coords.width, 64);
    assert_eq!(atlas.page(1).tiles(), &before_big_page);
}

#[test]
fn atlas_defragment_clear_and_filter() {
    let mut atlas = Atlas::new(64);
    let a = atlas.add(&request(16, 16, false)).unwrap();
    let b = atlas.add(&request(16, 16, false)).unwrap();
    assert_eq!(atlas.remove(&a), Ok(()));
    let moves = atlas.defragment();
    assert_eq!(moves.len(), 1);
    assert_eq!(moves[0].len(), 1);
    assert_eq!(moves[0][0].tile, 0);
    assert_eq!(moves[0][0].from, b.total_space);
    assert_eq!(moves[0][0].to, Rectangle::new(0, 0, 16, 16));
    assert_eq!(atlas.page(0).tiles()[0].total_space, Rectangle::new(0, 0, 16, 16));
    atlas.apply_texture_filter(TextureFilter::Nearest);
    assert_eq!(atlas.page(0).filter(), TextureFilter::Nearest);
    atlas.clear();
    assert_eq!(atlas.page_count(), 1);
    assert_eq!(atlas.page(0).tiles().len(), 0);
}

#[test]
fn generation_marks_stale_placement() {
    let mut page = AtlasTexture::new(Size::new(32, 32));
    assert_eq!(page.generation(), 0);
    let t = page.add(0, &request(16, 16, false)).unwrap();
    assert_eq!(page.generation(), 0);
    assert!(page.try_grow());
    assert_eq!(page.generation(), 1);
    page.defragment();
    assert_eq!(page.generation(), 2);
    assert_eq!(page.remove(&t), Err(AtlasError::InvalidHandle));
    let fresh = page.tiles()[0];
    assert_eq!(fresh.total_space, t.total_space);
    assert_eq!(page.remove(&fresh), Ok(()));
    assert_eq!(page.generation(), 2);
    page.clear();
    assert_eq!(page.generation(), 3);
}
