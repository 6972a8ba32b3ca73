use std::io::Cursor;
use std::io::Write;

use tilemap::application::RenderTask;
use tilemap::application::slice_tasks;
use tilemap::color::BakedColorManager;
use tilemap::color::biome::BiomeColor;
use tilemap::color::biome::BiomeColorTOps;
use tilemap::color::biome::BiomeProps;
use tilemap::color::biome::BiomeRecord;
use tilemap::color::biome::ClimateGrid;
use tilemap::color::blockstate::BlockState;
use tilemap::color::calculate::Rgb;
use tilemap::color::calculate::Rgba;
use tilemap::raster::Filter;
use tilemap::raster::LoadableImage;
use tilemap::raster::Raster;
use tilemap::render::RenderOptions;
use tilemap::render::check_tile_ids;
use tilemap::render::render;
use tilemap::render::tile::Tile;
use tilemap::render::tile::TileError;
use tilemap::tilegen::TileCache;
use tilemap::tilegen::merge_children;
use tilemap::tilegen::tile::TileId;

fn bsv(s: &str) -> Vec<u8> {
    s.as_bytes().to_vec()
}

fn test_manager() -> BakedColorManager {
    let record = BiomeRecord {
        name: bsv("plains"),
        props: BiomeProps::new(2400, 1200),
        water: Rgb::new(64, 64, 255),
        grass_ops: BiomeColorTOps::Keep,
        foliage_ops: BiomeColorTOps::Keep,
    };
    let grass = ClimateGrid::new(1, 1, vec![Rgb::new(100, 200, 50)]);
    let foliage = ClimateGrid::new(1, 1, vec![Rgb::new(30, 150, 30)]);
    let biome = BiomeColor::from_raw(vec![record], grass, foliage);
    let state = BlockState::build_single(0);
    let index = vec![(bsv("minecraft:stone"), state)];
    let colormap = vec![Rgba::new(128, 128, 128, 255)];
    let weightmap = vec![255u8];
    BakedColorManager::from_raw(index, colormap, weightmap, biome)
}

fn zip_archive(entries: &[(&str, &[u8])]) -> Vec<u8> {
    let mut zw = zip::ZipWriter::new(Cursor::new(Vec::new()));
    let opts = zip::write::SimpleFileOptions::default();
    for (name, data) in entries {
        zw.start_file(*name, opts).unwrap();
        zw.write_all(data).unwrap();
    }
    zw.finish().unwrap().into_inner()
}

fn uniform(w: u32, h: u32, c: Rgba) -> Raster {
    Raster { width: w, height: h, pixels: vec![c; (w * h) as usize] }
}

#[test]
fn merge_of_uniform_opaque_children_keeps_the_color() {
    // merging four fully opaque same-color 256 x 256 children with the
    // nearest filter yields one 256 x 256 image of exactly that color
    let c = Rgba::new(10, 20, 30, 255);
    let tl = LoadableImage::Image(uniform(256, 256, c));
    let tr = LoadableImage::Image(uniform(256, 256, c));
    let bl = LoadableImage::Image(uniform(256, 256, c));
    let br = LoadableImage::Image(uniform(256, 256, c));
    match LoadableImage::merge(&tl, &tr, &bl, &br, Filter::Nearest) {
        LoadableImage::Image(out) => {
            assert_eq!(out.width, 256);
            assert_eq!(out.height, 256);
            assert!(out.pixels.iter().all(|p| *p == c));
            assert!(out.is_fully_opaque());
        },
        _ => panic!("merge of present quadrants must be present"),
    }
}

#[test]
fn merge_with_a_smoothing_filter_still_produces_one_tile() {
    let c = Rgba::new(10, 20, 30, 255);
    let tl = LoadableImage::Image(uniform(8, 8, c));
    let tr = LoadableImage::Image(uniform(8, 8, c));
    let bl = LoadableImage::Image(uniform(8, 8, c));
    let br = LoadableImage::Image(uniform(8, 8, c));
    match LoadableImage::merge(&tl, &tr, &bl, &br, Filter::Triangle) {
        LoadableImage::Image(out) => {
            assert_eq!(out.width, 8);
            assert_eq!(out.height, 8);
            assert_eq!(out.pixels.len(), 64);
        },
        _ => panic!("merge of present quadrants must be present"),
    }
}

#[test]
fn merge_of_nothing_is_empty() {
    let e = LoadableImage::Empty;
    assert!(matches!(
        LoadableImage::merge(&e, &e, &e, &e, Filter::Nearest),
        LoadableImage::Empty
    ));
}

#[test]
fn merge_takes_the_first_present_side_length() {
    let c = Rgba::new(1, 2, 3, 255);
    let tl = LoadableImage::Empty;
    let tr = LoadableImage::Image(uniform(4, 4, c));
    let bl = LoadableImage::Empty;
    let br = LoadableImage::Empty;
    match LoadableImage::merge(&tl, &tr, &bl, &br, Filter::Nearest) {
        LoadableImage::Image(out) => {
            assert_eq!(out.width, 4);
            assert_eq!(out.height, 4);
            assert_eq!(out.pixels.len(), 16);
            // most of the canvas is transparent, so the result cannot be
            // fully opaque
            assert!(!out.is_fully_opaque());
        },
        _ => panic!("one present quadrant is enough"),
    }
}

#[test]
fn png_round_trip() {
    let mut r = uniform(2, 2, Rgba::new(9, 8, 7, 100));
    r.pixels[3] = Rgba::new(1, 2, 3, 4);
    let img = LoadableImage::Image(r);
    let bytes = img.png_bytes().expect("encoding succeeds");
    match LoadableImage::from_png_bytes(&bytes) {
        LoadableImage::Image(back) => {
            assert_eq!(back.width, 2);
            assert_eq!(back.height, 2);
            assert_eq!(back.pixels[0], Rgba::new(9, 8, 7, 100));
            assert_eq!(back.pixels[3], Rgba::new(1, 2, 3, 4));
        },
        _ => panic!("the encoded raster must decode"),
    }
}

#[test]
fn opaque_png_drops_alpha() {
    let img = LoadableImage::Image(uniform(2, 2, Rgba::new(5, 6, 7, 255)));
    let bytes = img.png_bytes().expect("encoding succeeds");
    // an RGB png with no alpha channel decodes as non-RGBA, which the tile
    // loader treats as absent
    assert!(matches!(
        LoadableImage::from_png_bytes(&bytes),
        LoadableImage::Empty
    ));
}

#[test]
fn ensure_resolves_unloaded_references() {
    let img = LoadableImage::Image(uniform(2, 2, Rgba::new(9, 8, 7, 100)));
    let bytes = img.png_bytes().unwrap();
    let mut li = LoadableImage::new(String::from("somewhere.png"));
    assert!(!li.is_image());
    li.ensure(Some(bytes));
    assert!(li.is_image());
    let mut gone = LoadableImage::new(String::from("missing.png"));
    gone.ensure(None);
    assert!(matches!(gone, LoadableImage::Empty));
}

#[test]
fn render_of_surfaceless_tile_is_transparent() {
    // a tile whose every cell has surface height 0 renders fully transparent
    let data = vec![0u8; 256 * 256 * 18];
    let key = b"1 Block{minecraft:stone}\n";
    let archive = zip_archive(&[("data", &data), ("key", key)]);
    let mgr = test_manager();
    let tile = Tile::load(&archive, (0, 0), &mgr).expect("tile loads");
    assert!(check_tile_ids(&tile));
    let out = render(tile, &mgr, &RenderOptions::default());
    assert_eq!(out.width, 256);
    assert_eq!(out.height, 256);
    assert!(out.pixels.iter().all(|p| p.a == 0));
}

#[test]
fn render_paints_surface_cells() {
    // surface height 1 in cell (0, 0), full light: the stone color shows
    let mut data = vec![0u8; 256 * 256 * 18];
    data[0] = 1;
    data[2] = 1;
    let key = b"1 Block{minecraft:stone}\n";
    let archive = zip_archive(&[("data", &data), ("key", key)]);
    let mgr = test_manager();
    let tile = Tile::load(&archive, (0, 0), &mgr).expect("tile loads");
    assert!(check_tile_ids(&tile));
    let out = render(tile, &mgr, &RenderOptions::default());
    assert_eq!(out.pixels[0], Rgba::new(128, 128, 128, 255));
    assert_eq!(out.pixels[1].a, 0);
}

#[test]
fn tile_load_rejects_bad_archives() {
    let mgr = test_manager();
    let no_data = zip_archive(&[("key", b"1 Block{minecraft:stone}\n")]);
    assert_eq!(Tile::load(&no_data, (0, 0), &mgr).err(), Some(TileError::Data));
    let short = zip_archive(&[("data", &[0u8; 10]), ("key", b"x\n")]);
    assert_eq!(Tile::load(&short, (0, 0), &mgr).err(), Some(TileError::DataLength));
    let data = vec![0u8; 256 * 256 * 18];
    let no_key = zip_archive(&[("data", &data)]);
    assert_eq!(Tile::load(&no_key, (0, 0), &mgr).err(), Some(TileError::Key));
    let bad_utf8 = zip_archive(&[("data", &data), ("key", &[0xFFu8, 0xFE])]);
    assert_eq!(Tile::load(&bad_utf8, (0, 0), &mgr).err(), Some(TileError::KeyEncoding));
}

#[test]
fn tile_control_selects_the_layout() {
    // version 2 stores the surface height plane first: byte 0 is cell
    // (0, 0)'s surface height, and its block-state id lives in the second
    // and third planes
    let mut data = vec![0u8; 256 * 256 * 18];
    data[0] = 1;
    data[2 * 65536] = 1;
    let key = b"1 Block{minecraft:stone}\n";
    let archive = zip_archive(&[("data", &data), ("key", key), ("control", b"version:2\n")]);
    let mgr = test_manager();
    let tile = Tile::load(&archive, (0, 0), &mgr).expect("tile loads");
    assert!(check_tile_ids(&tile));
    let out = render(tile, &mgr, &RenderOptions::default());
    assert_eq!(out.pixels[0], Rgba::new(128, 128, 128, 255));
}

#[test]
fn cache_hands_back_what_it_holds() {
    let mut cache = TileCache::new();
    let id = TileId::new(0, 3, 4);
    cache.insert(id, LoadableImage::Image(uniform(2, 2, Rgba::new(1, 1, 1, 255))));
    assert_eq!(cache.count(), 1);
    assert!(cache.take(&id).is_image());
    assert_eq!(cache.count(), 0);
    assert!(matches!(cache.take(&id), LoadableImage::Empty));
}

#[test]
fn merge_children_consumes_the_quadrant() {
    let c = Rgba::new(40, 50, 60, 255);
    let parent = TileId::new(1, 0, 0);
    let mut cache = TileCache::new();
    cache.insert(parent.topleft(), LoadableImage::Image(uniform(2, 2, c)));
    cache.insert(parent.topright(), LoadableImage::Image(uniform(2, 2, c)));
    cache.insert(parent.bottomleft(), LoadableImage::Image(uniform(2, 2, c)));
    cache.insert(parent.bottomright(), LoadableImage::Image(uniform(2, 2, c)));
    let merged = merge_children(&mut cache, &parent, Filter::Nearest);
    assert_eq!(cache.count(), 0);
    match merged {
        LoadableImage::Image(out) => {
            assert_eq!(out.width, 2);
            assert_eq!(out.height, 2);
            assert!(out.pixels.iter().all(|p| *p == c));
        },
        _ => panic!("four present children merge into a present image"),
    }
}

#[test]
fn tasks_are_sliced_evenly() {
    let mk = |n: i32| RenderTask {
        src: format!("{n}.zip"),
        tgt: format!("{n}.png"),
        tile_id: (n, n),
    };
    let tasks = vec![mk(1), mk(2), mk(3), mk(4), mk(5)];
    let slices = slice_tasks(tasks, 2);
    assert_eq!(slices.len(), 2);
    assert_eq!(slices[0].len(), 3);
    assert_eq!(slices[1].len(), 2);
    assert_eq!(slices[0][0].tile_id, (1, 1));
    assert_eq!(slices[1][1].tile_id, (5, 5));
    let none = slice_tasks(Vec::new(), 4);
    assert_eq!(none.len(), 0);
}
