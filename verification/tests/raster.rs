use chop::geometry::GridPlan;
use chop::raster::{Raster, Rgba};

fn sample(x: u32, y: u32, channel: u32) -> u8 {
    ((x * 31 + y * 17 + channel * 7) % 251) as u8
}

fn pattern(width: u32, height: u32) -> Raster {
    let mut samples: Vec<u8> = Vec::new();
    for y in 0..height {
        for x in 0..width {
            for channel in 0..4u32 {
                samples.push(sample(x, y, channel));
            }
        }
    }
    Raster::from_rgba8(width, height, samples).unwrap()
}

fn colour(x: u32, y: u32) -> Rgba {
    Rgba { red: sample(x, y, 0), green: sample(x, y, 1), blue: sample(x, y, 2), alpha: sample(x, y, 3) }
}

#[test]
fn raster_needs_four_samples_for_each_pixel() {
    assert!(Raster::from_rgba8(2, 3, vec![0; 24]).is_some());
    assert!(Raster::from_rgba8(2, 3, vec![0; 23]).is_none());
    assert!(Raster::from_rgba8(2, 3, vec![0; 25]).is_none());
    assert!(Raster::from_rgba8(0, 0, Vec::new()).is_some());
    assert!(Raster::from_rgba8(0, 7, Vec::new()).is_some());
    assert!(Raster::from_rgba8(1, 1, Vec::new()).is_none());
    assert!(Raster::from_rgba8(u32::MAX, u32::MAX, vec![0; 4]).is_none());
}

#[test]
fn raster_gives_back_what_it_was_made_of() {
    let samples: Vec<u8> = (0..24u8).collect();
    let raster = Raster::from_rgba8(3, 2, samples.clone()).unwrap();
    assert_eq!(raster.width(), 3);
    assert_eq!(raster.height(), 2);
    assert_eq!(raster.pixel(0, 0), Some(Rgba { red: 0, green: 1, blue: 2, alpha: 3 }));
    assert_eq!(raster.pixel(2, 0), Some(Rgba { red: 8, green: 9, blue: 10, alpha: 11 }));
    assert_eq!(raster.pixel(0, 1), Some(Rgba { red: 12, green: 13, blue: 14, alpha: 15 }));
    assert_eq!(raster.pixel(2, 1), Some(Rgba { red: 20, green: 21, blue: 22, alpha: 23 }));
    assert_eq!(raster.pixel(3, 0), None);
    assert_eq!(raster.pixel(0, 2), None);
    assert_eq!(raster.into_raw(), samples);
}

#[test]
fn single_tile_is_a_copy_of_the_source() {
    let mut source = pattern(100, 100);
    let plan = GridPlan::new(100, 100, 1, 1);
    let before = source.clone();
    let tile = source.tile(&plan, 0, 0);
    assert_eq!(tile.width(), 100);
    assert_eq!(tile.height(), 100);
    assert_eq!(tile, before);
    assert_eq!(source, before);
}

#[test]
fn tile_differs_from_the_source_it_was_cut_from() {
    let mut source = pattern(8, 6);
    let plan = GridPlan::new(8, 6, 2, 2);
    let tile = source.tile(&plan, 1, 1);
    assert_eq!(tile.width(), 4);
    assert_eq!(tile.height(), 3);
    assert_eq!(tile.pixel(0, 0), Some(colour(4, 3)));
    assert_ne!(tile.pixel(0, 0), source.pixel(0, 0));
    let raw = tile.into_raw();
    assert_eq!(raw.len(), 48);
    assert_ne!(raw, source.clone().into_raw());
}

#[test]
fn every_tile_has_the_tile_size() {
    let mut source = pattern(400, 50);
    let plan = GridPlan::new(400, 50, 4, 1);
    for column in 0..4u32 {
        let tile = source.tile(&plan, column, 0);
        assert_eq!((tile.width(), tile.height()), (100, 50));
    }
}

#[test]
fn covered_pixels_are_found_in_their_tile() {
    let mut source = pattern(23, 17);
    let plan = GridPlan::new(23, 17, 4, 3);
    let tile_width: u32 = plan.tile_width();
    let tile_height: u32 = plan.tile_height();
    assert_eq!((tile_width, tile_height), (5, 5));
    let mut tiles: Vec<Vec<Raster>> = Vec::new();
    for column in 0..4u32 {
        let mut down: Vec<Raster> = Vec::new();
        for row in 0..3u32 {
            down.push(source.tile(&plan, column, row));
        }
        tiles.push(down);
    }
    for y in 0..3 * tile_height {
        for x in 0..4 * tile_width {
            let tile = &tiles[(x / tile_width) as usize][(y / tile_height) as usize];
            assert_eq!(tile.pixel(x % tile_width, y % tile_height), Some(colour(x, y)));
        }
    }
}

#[test]
fn last_column_and_row_are_left_out() {
    let mut samples: Vec<u8> = Vec::new();
    for y in 0..100u32 {
        for x in 0..100u32 {
            let mark: u8 = if x == 99 || y == 99 { 255 } else { 0 };
            samples.extend_from_slice(&[mark, 7, 7, 7]);
        }
    }
    let mut source = Raster::from_rgba8(100, 100, samples).unwrap();
    let plan = GridPlan::new(100, 100, 3, 3);
    let mut count: u32 = 0;
    for column in 0..3u32 {
        for row in 0..3u32 {
            let tile = source.tile(&plan, column, row);
            assert_eq!((tile.width(), tile.height()), (33, 33));
            let raw = tile.into_raw();
            assert_eq!(raw.len(), 33 * 33 * 4);
            assert!(raw.iter().all(|s| *s != 255));
            count += 1;
        }
    }
    assert_eq!(count, 9);
}

#[test]
fn tiles_put_together_give_the_covered_part() {
    let mut source = pattern(11, 7);
    let plan = GridPlan::new(11, 7, 3, 2);
    let tile_width: u32 = plan.tile_width();
    let tile_height: u32 = plan.tile_height();
    let mut whole: Vec<Vec<Option<Rgba>>> =
        vec![vec![None; (3 * tile_width) as usize]; (2 * tile_height) as usize];
    for index in 0..plan.tile_count() {
        let (column, row) = plan.coordinates(index);
        let (left, top) = plan.origin(column, row);
        let tile = source.tile(&plan, column, row);
        for b in 0..tile_height {
            for a in 0..tile_width {
                whole[(top + b) as usize][(left + a) as usize] = tile.pixel(a, b);
            }
        }
    }
    for y in 0..2 * tile_height {
        for x in 0..3 * tile_width {
            assert_eq!(whole[y as usize][x as usize], source.pixel(x, y));
        }
    }
}

#[test]
fn tile_agrees_with_the_image_crate() {
    let mut source = pattern(37, 29);
    let plan = GridPlan::new(37, 29, 5, 4);
    let raw = source.clone().into_raw();
    let reference = image::RgbaImage::from_raw(37, 29, raw).unwrap();
    for column in 0..5u32 {
        for row in 0..4u32 {
            let tile = source.tile(&plan, column, row);
            let (left, top) = plan.origin(column, row);
            let expected =
                image::imageops::crop_imm(&reference, left, top, plan.tile_width(), plan.tile_height())
                    .to_image();
            assert_eq!(tile.width(), expected.width());
            assert_eq!(tile.height(), expected.height());
            assert_eq!(tile.into_raw(), expected.into_raw());
        }
    }
}

#[test]
fn empty_tiles_have_no_samples() {
    let mut source = pattern(2, 5);
    let plan = GridPlan::new(2, 5, 3, 1);
    let tile = source.tile(&plan, 2, 0);
    assert_eq!((tile.width(), tile.height()), (0, 5));
    assert_eq!(tile.pixel(0, 0), None);
    assert!(tile.into_raw().is_empty());
}

#[test]
fn cutting_leaves_the_source_as_it_was() {
    let mut source = pattern(9, 9);
    let before = source.clone();
    let plan = GridPlan::new(9, 9, 2, 4);
    for index in 0..plan.tile_count() {
        let (column, row) = plan.coordinates(index);
        let tile = source.tile(&plan, column, row);
        assert_eq!((tile.width(), tile.height()), (4, 2));
        assert_eq!(source, before);
    }
}
