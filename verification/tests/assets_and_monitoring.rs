use std::io::Write;

use gaia_maker::assets::{animal_id_of_asset_path, decode_from_storage, encode_for_storage, gunzip_asset, is_monochrome_path, load_image};
use gaia_maker::geom::Coords;
use gaia_maker::reports::{ReportContent, Reports, WarningReadings};

fn png(width: u32, height: u32, pixels: Vec<u8>) -> Vec<u8> {
    let img = image::RgbaImage::from_raw(width, height, pixels).unwrap();
    let mut out = std::io::Cursor::new(Vec::new());
    img.write_to(&mut out, image::ImageFormat::Png).unwrap();
    out.into_inner()
}

#[test]
fn monochrome_folders() {
    assert!(is_monochrome_path("animals/fox.png"));
    assert!(is_monochrome_path("tile_animations/fire/0.png"));
    assert!(is_monochrome_path("biomes"));
    assert!(!is_monochrome_path("animalsx/fox.png"));
    assert!(!is_monochrome_path("ui/animals/fox.png"));
}

#[test]
fn images_get_a_grey_copy_below() {
    let pixels = vec![30, 60, 91, 255, 0, 0, 0, 7];
    let bytes = png(2, 1, pixels.clone());
    let plain = load_image("ui/button.png", &bytes).unwrap();
    assert_eq!((plain.width, plain.height), (2, 1));
    assert_eq!(plain.pixels, pixels);
    let mono = load_image("animals/fox.png", &bytes).unwrap();
    assert_eq!((mono.width, mono.height), (2, 2));
    assert_eq!(mono.pixels, vec![30, 60, 91, 255, 0, 0, 0, 7, 60, 60, 60, 255, 0, 0, 0, 7]);
    assert!(load_image("animals/fox.png", &[1, 2, 3]).is_none());
}

#[test]
fn storage_text_round_trip() {
    let data: Vec<u8> = (0..=255u8).cycle().take(1000).collect();
    let text = encode_for_storage(&data).unwrap();
    assert!(text.starts_with("H4sI"));
    assert_eq!(decode_from_storage(&text).unwrap(), data);
    assert_eq!(decode_from_storage("!!!"), None);
    assert_eq!(decode_from_storage("AAAA"), None);
    let empty = encode_for_storage(&[]).unwrap();
    assert_eq!(decode_from_storage(&empty).unwrap(), Vec::<u8>::new());
}

#[test]
fn gzip_assets() {
    let mut enc = flate2::write::GzEncoder::new(Vec::new(), flate2::Compression::default());
    enc.write_all(b"planet data").unwrap();
    let gz = enc.finish().unwrap();
    assert_eq!(gunzip_asset(&gz).unwrap(), b"planet data".to_vec());
    assert!(gunzip_asset(b"plain").is_none());
}

#[test]
fn monitoring_sets_and_clears_warnings() {
    let mut reports = Reports::new();
    reports.append(5, ReportContent::EventCivilized { pos: Coords(0, 0), animal: gaia_maker::animal_id::animal_id_from_str("fox").unwrap() });
    let hot = WarningReadings { high_temp: true, low_temp: false, low_oxygen: true, low_carbon_dioxide: false };
    assert!(!reports.monitor(10, 10, &hot));
    assert_eq!(reports.list().len(), 1);
    assert!(reports.monitor(11, 10, &hot));
    let kinds: Vec<u64> = reports.list().iter().map(|r| r.cycles).collect();
    assert_eq!(kinds, vec![11, 11, 5]);
    assert!(matches!(reports.list()[0].content, ReportContent::WarnHighTemp));
    assert!(matches!(reports.list()[1].content, ReportContent::WarnLowOxygen));
    let calm = WarningReadings { high_temp: false, low_temp: false, low_oxygen: true, low_carbon_dioxide: false };
    assert!(reports.monitor(1011, 10, &calm));
    let list = reports.list();
    assert_eq!(list.len(), 1);
    assert!(matches!(list[0].content, ReportContent::WarnLowOxygen));
    assert_eq!(list[0].cycles, 1011);
}

#[test]
fn biome_texture_pieces() {
    use_rects();
}

fn use_rects() {
    let r = gaia_maker::assets::biome_piece_rect(0, 0);
    assert_eq!((r.min_x, r.min_y, r.max_x, r.max_y), (1, 1, 25, 25));
    let r = gaia_maker::assets::biome_piece_rect(3, 1);
    assert_eq!((r.min_x, r.min_y, r.max_x, r.max_y), (75, 25, 99, 49));
    let r = gaia_maker::assets::biome_piece_rect(4, 7);
    assert_eq!((r.min_x, r.min_y, r.max_x, r.max_y), (101, 175, 125, 199));
    let all = gaia_maker::assets::biome_atlas_rects();
    assert_eq!(all.len(), 48);
    assert_eq!(all[7], gaia_maker::assets::biome_piece_rect(1, 1));
    assert_eq!(all[47], gaia_maker::assets::biome_piece_rect(5, 7));
}

#[test]
fn animal_asset_paths() {
    assert_eq!(animal_id_of_asset_path("animals/fox.animal.ron").as_deref(), Some("fox"));
    assert_eq!(animal_id_of_asset_path("animals/cat.png").as_deref(), Some("cat"));
    assert_eq!(animal_id_of_asset_path("animals/fox"), None);
    assert_eq!(animal_id_of_asset_path("plants/fox.png"), None);
}
