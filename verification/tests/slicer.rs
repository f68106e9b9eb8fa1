use chop::naming::OutputLayout;
use chop::raster::{Raster, Rgba};
use chop::report::ChopError;
use chop::slicer::{Event, Slicer, Step, Tile};

fn shade(x: u32, y: u32) -> u8 {
    ((x * 3 + y * 5) % 200) as u8
}

fn picture(width: u32, height: u32) -> Raster {
    let mut samples: Vec<u8> = Vec::new();
    for y in 0..height {
        for x in 0..width {
            samples.extend_from_slice(&[shade(x, y), (x % 256) as u8, (y % 256) as u8, 255]);
        }
    }
    Raster::from_rgba8(width, height, samples).unwrap()
}

fn run_to_the_end(slicer: &mut Slicer) -> Vec<Tile> {
    let mut tiles: Vec<Tile> = Vec::new();
    let mut step = slicer.step(Event::Started);
    loop {
        match step {
            Step::Emit(tile) => {
                tiles.push(tile);
                step = slicer.step(Event::TileSaved);
            }
            Step::Finish => return tiles,
            Step::Abort(error) => panic!("{}", error.message()),
        }
    }
}

#[test]
fn portrait_in_one_piece() {
    let layout = OutputLayout::derive("portrait.png", None).unwrap();
    let source = picture(100, 100);
    let mut slicer = Slicer::new(source.clone(), 1, 1, layout);
    assert_eq!(slicer.total(), 1);
    let tiles = run_to_the_end(&mut slicer);
    assert_eq!(tiles.len(), 1);
    assert_eq!(tiles[0].file_name, "1,1.png");
    assert_eq!((tiles[0].column, tiles[0].row), (0, 0));
    assert_eq!(tiles[0].image, source);
    assert_eq!(slicer.layout().root, "output/");
    assert_eq!(slicer.layout().stem, "portrait");
    assert_eq!(slicer.done(), 1);
}

#[test]
fn banner_in_four_pieces() {
    let layout = OutputLayout::derive("banner.jpg", None).unwrap();
    let mut slicer = Slicer::new(picture(400, 50), 4, 1, layout);
    let tiles = run_to_the_end(&mut slicer);
    let names: Vec<&str> = tiles.iter().map(|t| t.file_name.as_str()).collect();
    assert_eq!(names, vec!["1,1.jpg", "2,1.jpg", "3,1.jpg", "4,1.jpg"]);
    for tile in &tiles {
        assert_eq!((tile.image.width(), tile.image.height()), (100, 50));
    }
    assert_eq!(slicer.layout().stem, "banner");
}

#[test]
fn pic_in_nine_pieces_without_its_last_line() {
    let layout = OutputLayout::derive("pic.png", None).unwrap();
    let mut slicer = Slicer::new(picture(100, 100), 3, 3, layout);
    assert_eq!(slicer.total(), 9);
    let tiles = run_to_the_end(&mut slicer);
    assert_eq!(tiles.len(), 9);
    for tile in &tiles {
        assert_eq!((tile.image.width(), tile.image.height()), (33, 33));
        for b in 0..33u32 {
            for a in 0..33u32 {
                let x: u32 = tile.column * 33 + a;
                let y: u32 = tile.row * 33 + b;
                assert!(x < 99 && y < 99);
                assert_eq!(
                    tile.image.pixel(a, b),
                    Some(Rgba { red: shade(x, y), green: x as u8, blue: y as u8, alpha: 255 })
                );
            }
        }
    }
}

#[test]
fn photo_in_quarters_under_a_given_folder() {
    let layout = OutputLayout::derive("my.photo.jpg", Some("/tmp/out")).unwrap();
    let mut slicer = Slicer::new(picture(800, 600), 2, 2, layout);
    let tiles = run_to_the_end(&mut slicer);
    let mut paths: Vec<String> = Vec::new();
    for tile in &tiles {
        assert_eq!((tile.image.width(), tile.image.height()), (400, 300));
        let path = std::path::Path::new(&slicer.layout().root)
            .join(&slicer.layout().stem)
            .join(&tile.file_name);
        paths.push(path.to_string_lossy().to_string());
    }
    assert_eq!(
        paths,
        vec!["/tmp/out/my/1,1.jpg", "/tmp/out/my/1,2.jpg", "/tmp/out/my/2,1.jpg", "/tmp/out/my/2,2.jpg"]
    );
}

#[test]
fn missing_source_gives_the_load_error() {
    let error = ChopError::Load;
    assert_eq!(error.message(), "Error loading image");
    assert_eq!(error.exit_code(), 1);
    assert_ne!(error, ChopError::Save { column: 0, row: 0 });
}

#[test]
fn fresh_run_has_written_nothing() {
    let layout = OutputLayout::derive("valid.png", None).unwrap();
    let mut slicer = Slicer::new(picture(4, 4), 2, 2, layout);
    assert_eq!(slicer.total(), 4);
    assert_eq!(slicer.done(), 0);
    assert_eq!(slicer.plan().tile_width(), 2);
    assert_eq!(run_to_the_end(&mut slicer).len(), 4);
}

#[test]
fn run_counts_the_tiles_it_has_written() {
    let layout = OutputLayout::derive("a.png", None).unwrap();
    let mut slicer = Slicer::new(picture(6, 6), 3, 2, layout);
    let mut step = slicer.step(Event::Started);
    let mut written: u32 = 0;
    while let Step::Emit(tile) = step {
        assert_eq!(slicer.done(), written);
        assert_eq!(slicer.plan().coordinates(written), (tile.column, tile.row));
        step = slicer.step(Event::TileSaved);
        written += 1;
    }
    assert_eq!(step, Step::Finish);
    assert_eq!(written, 6);
    assert_eq!(slicer.done(), slicer.total());
}

#[test]
fn asking_again_gives_the_same_tile() {
    let layout = OutputLayout::derive("a.png", None).unwrap();
    let mut slicer = Slicer::new(picture(6, 6), 2, 2, layout);
    let first = slicer.step(Event::Started);
    let again = slicer.step(Event::Started);
    assert_eq!(first, again);
    assert_eq!(slicer.done(), 0);
}

#[test]
fn failed_tile_ends_the_run() {
    let layout = OutputLayout::derive("a.png", None).unwrap();
    let mut slicer = Slicer::new(picture(6, 6), 2, 2, layout);
    assert!(matches!(slicer.step(Event::Started), Step::Emit(_)));
    assert!(matches!(slicer.step(Event::TileSaved), Step::Emit(_)));
    let step = slicer.step(Event::TileFailed);
    assert_eq!(step, Step::Abort(ChopError::Save { column: 0, row: 1 }));
    if let Step::Abort(error) = step {
        assert_eq!(error.message(), "Error saving chunk 0, 1");
    }
    assert_eq!(slicer.done(), 1);
    assert_eq!(slicer.step(Event::TileSaved), Step::Abort(ChopError::Save { column: 0, row: 1 }));
    assert_eq!(slicer.step(Event::Started), Step::Abort(ChopError::Save { column: 0, row: 1 }));
    assert_eq!(slicer.done(), 1);
}

#[test]
fn failure_at_the_first_tile() {
    let layout = OutputLayout::derive("a.png", None).unwrap();
    let mut slicer = Slicer::new(picture(6, 6), 2, 2, layout);
    assert!(matches!(slicer.step(Event::Started), Step::Emit(_)));
    assert_eq!(slicer.step(Event::TileFailed), Step::Abort(ChopError::Save { column: 0, row: 0 }));
}

#[test]
fn finished_run_stays_finished() {
    let layout = OutputLayout::derive("a.png", None).unwrap();
    let mut slicer = Slicer::new(picture(2, 2), 1, 1, layout);
    assert!(matches!(slicer.step(Event::Started), Step::Emit(_)));
    assert_eq!(slicer.step(Event::TileSaved), Step::Finish);
    assert_eq!(slicer.step(Event::TileSaved), Step::Finish);
    assert_eq!(slicer.step(Event::TileFailed), Step::Finish);
    assert_eq!(slicer.step(Event::Started), Step::Finish);
    assert_eq!(slicer.done(), 1);
}

#[test]
fn largest_grid_writes_every_tile_once() {
    let layout = OutputLayout::derive("big.png", None).unwrap();
    let mut slicer = Slicer::new(picture(255, 255), 255, 255, layout);
    assert_eq!(slicer.total(), 65025);
    let tiles = run_to_the_end(&mut slicer);
    assert_eq!(tiles.len(), 65025);
    let mut names: Vec<&str> = tiles.iter().map(|t| t.file_name.as_str()).collect();
    assert_eq!(names[0], "1,1.png");
    assert_eq!(names[254], "1,255.png");
    assert_eq!(names[255], "2,1.png");
    assert_eq!(names[65024], "255,255.png");
    names.sort();
    names.dedup();
    assert_eq!(names.len(), 65025);
}
