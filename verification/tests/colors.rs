use tilemap::color::BakedColorManager;
use tilemap::color::biome::Biome;
use tilemap::color::biome::BiomeColor;
use tilemap::color::biome::BiomeColorTOps;
use tilemap::color::biome::BiomeProps;
use tilemap::color::biome::BiomeRecord;
use tilemap::color::biome::ClimateGrid;
use tilemap::color::biome::InnerColor;
use tilemap::color::blockstate::BlockState;
use tilemap::color::calculate::Rgb;
use tilemap::color::calculate::Rgba;
use tilemap::color::calculate::blend;
use tilemap::color::calculate::color_mul;
use tilemap::render::light_modify;

fn bs(s: &str) -> Vec<u8> {
    s.as_bytes().to_vec()
}

fn test_biome_color() -> BiomeColor {
    let record = BiomeRecord {
        name: bs("plains"),
        props: BiomeProps::new(2400, 1200),
        water: Rgb::new(64, 64, 255),
        grass_ops: BiomeColorTOps::Keep,
        foliage_ops: BiomeColorTOps::Keep,
    };
    let grass = ClimateGrid::new(1, 1, vec![Rgb::new(100, 200, 50)]);
    let foliage = ClimateGrid::new(1, 1, vec![Rgb::new(30, 150, 30)]);
    BiomeColor::from_raw(vec![record], grass, foliage)
}

#[test]
fn own_blend_is_the_integer_source_over() {
    let mut bg = Rgba::new(100, 100, 100, 255);
    blend(&mut bg, &Rgba::new(0, 0, 0, 0));
    assert_eq!(bg, Rgba::new(100, 100, 100, 255));
    let mut bg = Rgba::new(0, 0, 0, 0);
    blend(&mut bg, &Rgba::new(10, 20, 30, 255));
    assert_eq!(bg, Rgba::new(10, 20, 30, 255));
    let mut bg = Rgba::new(200, 0, 0, 255);
    blend(&mut bg, &Rgba::new(0, 0, 0, 51));
    // (200 * 204 + 0 * 51) / 255 = 160
    assert_eq!(bg, Rgba::new(160, 0, 0, 255));
}

#[test]
fn color_mul_scales_channels() {
    let c = color_mul(Rgba::new(200, 100, 50, 77), Rgb::new(255, 255, 255));
    assert_eq!(c, Rgba::new(200, 100, 50, 77));
    let c = color_mul(Rgba::new(200, 100, 50, 77), Rgb::new(0, 127, 255));
    assert_eq!(c, Rgba::new(0, 49, 50, 77));
}

#[test]
fn light_scaling() {
    let mut c = Rgba::new(255, 128, 15, 200);
    light_modify(&mut c, 15);
    assert_eq!(c, Rgba::new(255, 128, 15, 200));
    let mut c = Rgba::new(255, 128, 15, 200);
    light_modify(&mut c, 0);
    assert_eq!(c, Rgba::new(0, 0, 0, 200));
    let mut c = Rgba::new(150, 90, 30, 255);
    light_modify(&mut c, 5);
    assert_eq!(c, Rgba::new(50, 30, 10, 255));
}

#[test]
fn tint_class_of_block_names() {
    assert!(matches!(InnerColor::from_name(b"minecraft:water"), InnerColor::Water));
    assert!(matches!(InnerColor::from_name(b"minecraft:grass_block"), InnerColor::Grass));
    assert!(matches!(InnerColor::from_name(b"minecraft:lily_pad"), InnerColor::Grass));
    assert!(matches!(InnerColor::from_name(b"minecraft:oak_leaves"), InnerColor::Foliage));
    assert!(matches!(InnerColor::from_name(b"minecraft:stone"), InnerColor::Plain));
}

#[test]
fn biome_water_and_grass_tints() {
    let bc = test_biome_color();
    let w = bc.get_water(&Biome(0));
    assert_eq!(w, Rgb::new(64, 64, 255));
    // an out-of-range biome id falls back to the first record
    let w = bc.get_water(&Biome(99));
    assert_eq!(w, Rgb::new(64, 64, 255));
    // a 1x1 grid serves its only pixel whatever the climate is
    let g = bc.get_grass(&Biome(0), 64);
    assert_eq!(g, Rgb::new(100, 200, 50));
    let f = bc.get_foliage(&Biome(0), 200);
    assert_eq!(f, Rgb::new(30, 150, 30));
}

#[test]
fn tint_override_modes() {
    let base = Rgb::new(10, 20, 30);
    assert_eq!(BiomeColorTOps::Keep.modify(&base), base);
    assert_eq!(BiomeColorTOps::Fixed(Rgb::new(1, 2, 3)).modify(&base), Rgb::new(1, 2, 3));
    assert_eq!(
        BiomeColorTOps::Average(Rgb::new(30, 40, 50)).modify(&base),
        Rgb::new(20, 30, 40),
    );
}

#[test]
fn weighted_blend_discards_low_coverage() {
    // candidates (red, weight 10) and (blue, weight 250): 10 * 4 < 250, so
    // red is discarded and the result is pure blue at full alpha
    let keys = vec![(bs("a=1"), 1usize), (bs("b=2"), 2usize)];
    let values = vec![(vec![1usize], 0usize), (vec![2usize], 1usize)];
    let state = BlockState::build_multipart(keys, values);
    let index = vec![(bs("minecraft:poppy"), state)];
    let colormap = vec![Rgba::new(255, 0, 0, 255), Rgba::new(0, 0, 255, 255)];
    let weightmap = vec![10u8, 250u8];
    let mgr = BakedColorManager::from_raw(index, colormap, weightmap, test_biome_color());
    let c = mgr.get_basic_color(
        b"minecraft:poppy",
        &vec![bs("a=1"), bs("b=2")],
        false,
    );
    assert_eq!(c, Rgba::new(0, 0, 255, 255));
}

#[test]
fn unknown_block_is_transparent() {
    let index: Vec<(Vec<u8>, BlockState)> = Vec::new();
    let mgr = BakedColorManager::from_raw(index, Vec::new(), Vec::new(), test_biome_color());
    let c = mgr.get_basic_color(b"minecraft:mystery", &vec![], false);
    assert_eq!(c, Rgba::new(0, 0, 0, 0));
}

#[test]
fn modified_color_applies_tints() {
    let index: Vec<(Vec<u8>, BlockState)> = Vec::new();
    let mgr = BakedColorManager::from_raw(index, Vec::new(), Vec::new(), test_biome_color());
    let basic = Rgba::new(255, 255, 255, 255);
    let tinted = mgr.get_modified_color(basic, &InnerColor::Water, 64, &Biome(0), false);
    assert_eq!(tinted, Rgba::new(64, 64, 255, 255));
    let grassy = mgr.get_modified_color(basic, &InnerColor::Grass, 64, &Biome(0), false);
    assert_eq!(grassy, Rgba::new(100, 200, 50, 255));
    let plain = mgr.get_modified_color(basic, &InnerColor::Plain, 64, &Biome(0), false);
    assert_eq!(plain, basic);
}
