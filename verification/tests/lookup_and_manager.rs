use imgdata::band::Band;
use imgdata::color::{from_hex, Rgba};
use imgdata::io::{ColorEntry, ColorFile, LookupTable};
use imgdata::manager::{Image, Manager};
use imgdata::Error;

fn px(r: u8, g: u8, b: u8, a: u8) -> Rgba {
    Rgba { r, g, b, a }
}

fn entry(name: &str, color: &str) -> ColorEntry {
    ColorEntry { name: String::from(name), color: String::from(color) }
}

/// A 4x4 image with known per-pixel colors: red at (0,0), yellow-green
/// at (3,0), white at (1,1), green at (3,1), purple at (0,3), cyan at
/// (3,3), and fully transparent pixels at (2,1) and (1,2).
fn test_image() -> Image {
    let k = px(0, 0, 0, 255);
    let pixels = vec![
        // row 0
        px(255, 0, 0, 255),
        k,
        k,
        px(128, 255, 0, 255),
        // row 1
        k,
        px(255, 255, 255, 255),
        px(0, 0, 0, 0),
        px(0, 255, 0, 255),
        // row 2
        k,
        px(0, 0, 0, 0),
        k,
        k,
        // row 3
        px(128, 0, 255, 255),
        k,
        k,
        px(0, 255, 255, 255),
    ];
    Image::new(4, 4, pixels).unwrap()
}

fn test_color_file() -> ColorFile {
    ColorFile {
        entries: vec![
            entry("red", "#FF0000"),
            entry("thing1", "#123abc"),
            entry("thing2", "#abc123"),
        ],
    }
}

#[test]
fn test_bands() {
    let img = test_image();
    let pixel00 = img.get_pixel(0, 0);
    assert_eq!(Band::r(&pixel00), 255);
    assert_eq!(Band::g(&pixel00), 0);
    assert_eq!(Band::b(&pixel00), 0);
    assert_eq!(Band::a(&pixel00), 255);
    let pixel30 = img.get_pixel(3, 0);
    assert_eq!(Band::r(&pixel30), 128);
    assert_eq!(Band::g(&pixel30), 255);
    assert_eq!(Band::b(&pixel30), 0);
    assert_eq!(Band::a(&pixel30), 255);
    let pixel21 = img.get_pixel(2, 1);
    assert_eq!(Band::a(&pixel21), 0);
    let pixel12 = img.get_pixel(1, 2);
    assert_eq!(Band::a(&pixel12), 0);
}

#[test]
fn test_components() {
    let img = test_image();
    // Red
    let pixel00 = img.get_pixel(0, 0);
    assert_eq!(pixel00.r(), 255);
    assert_eq!(pixel00.g(), 0);
    assert_eq!(pixel00.b(), 0);
    assert_eq!(pixel00.a(), 255);
    // Yellow-green
    let pixel30 = img.get_pixel(3, 0);
    assert_eq!(pixel30.r(), 128);
    assert_eq!(pixel30.g(), 255);
    assert_eq!(pixel30.b(), 0);
    assert_eq!(pixel30.a(), 255);
    // Cyan
    let pixel33 = img.get_pixel(3, 3);
    assert_eq!(pixel33.r(), 0);
    assert_eq!(pixel33.g(), 255);
    assert_eq!(pixel33.b(), 255);
    assert_eq!(pixel33.a(), 255);
    // Purple
    let pixel03 = img.get_pixel(0, 3);
    assert_eq!(pixel03.r(), 128);
    assert_eq!(pixel03.g(), 0);
    assert_eq!(pixel03.b(), 255);
    assert_eq!(pixel03.a(), 255);
    // White
    let pixel11 = img.get_pixel(1, 1);
    assert_eq!(pixel11.r(), 255);
    assert_eq!(pixel11.g(), 255);
    assert_eq!(pixel11.b(), 255);
    assert_eq!(pixel11.a(), 255);
    // Transparent
    let pixel21 = img.get_pixel(2, 1);
    assert_eq!(pixel21.a(), 0);
    let pixel12 = img.get_pixel(1, 2);
    assert_eq!(pixel12.a(), 0);
    // Green
    let pixel31 = img.get_pixel(3, 1);
    assert_eq!(pixel31.rgb(), [0, 255, 0]);
    assert_eq!(pixel31.rgba(), [0, 255, 0, 255]);
    assert_eq!(pixel31.hex(), "00FF00");
    assert_eq!(pixel31.hexa(), "00FF00FF");
}

#[test]
fn test_new_color_file() {
    let color_file = ColorFile::new(vec![String::from("#abc123"), String::from("#123abc")]);
    assert_eq!(color_file.entries[0].name, "");
    assert_eq!(color_file.entries[0].color, "#abc123");
    assert_eq!(color_file.entries[1].name, "");
    assert_eq!(color_file.entries[1].color, "#123abc");
}

#[test]
fn test_create_lookup() {
    let color_file = ColorFile {
        entries: vec![entry("thing1", "#123abc"), entry("thing2", "#abc123")],
    };
    let lu = color_file.create_lookup().unwrap();
    let c1 = from_hex(String::from("#123abc")).unwrap();
    let c2 = from_hex(String::from("#abc123")).unwrap();

    match lu.get(&c1) {
        Some(name) => assert_eq!(name.clone(), "thing1"),
        _ => panic!("WAT"),
    }

    match lu.get(&c2) {
        Some(name) => assert_eq!(name.clone(), "thing2"),
        _ => panic!("WUT"),
    }
}

#[test]
fn test_create_lookup_rejects_bad_entry() {
    let color_file = ColorFile {
        entries: vec![entry("good", "#123abc"), entry("bad", "notahex")],
    };
    assert!(matches!(color_file.create_lookup(), Err(Error::InvalidEncoding)));
}

#[test]
fn test_table_overwrite() {
    // Two entries decode to the same RGBA key: the later name wins.
    let color_file = ColorFile {
        entries: vec![entry("first", "#336699"), entry("second", "0x336699")],
    };
    let lu = color_file.create_lookup().unwrap();
    let c = from_hex(String::from("336699")).unwrap();
    assert_eq!(lu.get(&c).unwrap().as_str(), "second");
    assert_eq!(lu.entries.len(), 1);
}

#[test]
fn test_lookup_insert_and_get() {
    let mut lu = LookupTable::new();
    lu.insert(px(1, 2, 3, 255), String::from("one"));
    lu.insert(px(9, 9, 9, 255), String::from("nine"));
    assert_eq!(lu.get(&px(1, 2, 3, 255)).unwrap().as_str(), "one");
    assert_eq!(lu.get(&px(9, 9, 9, 255)).unwrap().as_str(), "nine");
    assert!(lu.get(&px(1, 2, 3, 0)).is_none());
    lu.insert(px(1, 2, 3, 255), String::from("uno"));
    assert_eq!(lu.get(&px(1, 2, 3, 255)).unwrap().as_str(), "uno");
    assert_eq!(lu.entries.len(), 2);
}

#[test]
fn test_manager_get() {
    let manager = Manager::new(test_image(), test_color_file()).unwrap();
    let pixel_data = manager.get(0, 0).unwrap();
    assert_eq!(pixel_data.x, 0);
    assert_eq!(pixel_data.y, 0);
    assert_eq!(pixel_data.color.rgba(), [255, 0, 0, 255]);
    assert_eq!(pixel_data.color_name, "red");
}

#[test]
fn test_manager_get_miss_is_unknown() {
    let manager = Manager::new(test_image(), test_color_file()).unwrap();
    // White at (1,1) is in no registry entry: a defined miss, no error.
    let pixel_data = manager.get(1, 1).unwrap();
    assert_eq!(pixel_data.color_name, "UNKNOWN");
    assert_eq!(pixel_data.color.rgba(), [255, 255, 255, 255]);
}

#[test]
fn test_manager_get_out_of_range() {
    let manager = Manager::new(test_image(), test_color_file()).unwrap();
    assert!(matches!(manager.get(4, 0), Err(Error::IndexOutOfRange)));
    assert!(matches!(manager.get(0, 4), Err(Error::IndexOutOfRange)));
    assert!(matches!(manager.hash(17, 17), Err(Error::IndexOutOfRange)));
}

#[test]
fn test_manager_new_rejects_bad_registry() {
    let bad = ColorFile { entries: vec![entry("red", "huh?")] };
    assert!(matches!(Manager::new(test_image(), bad), Err(Error::InvalidEncoding)));
}

#[test]
fn test_manager_hash() {
    let manager = Manager::new(test_image(), test_color_file()).unwrap();
    assert_eq!(manager.hash(0, 0).unwrap(), 14349191598533205778);
}

#[test]
fn test_hash_determinism() {
    let manager = Manager::new(test_image(), test_color_file()).unwrap();
    assert_eq!(manager.hash(2, 3).unwrap(), manager.hash(2, 3).unwrap());
    // A registry that names the same color differently must not change
    // the hash: the resolved name is no part of the content identity.
    let other = Manager::new(
        test_image(),
        ColorFile { entries: vec![entry("scarlet", "#FF0000")] },
    )
    .unwrap();
    assert_eq!(manager.hash(0, 0).unwrap(), other.hash(0, 0).unwrap());
    assert_ne!(manager.get(0, 0).unwrap().color_name, other.get(0, 0).unwrap().color_name);
}

#[test]
fn test_colors_bulk() {
    let manager = Manager::new(test_image(), test_color_file()).unwrap();
    assert_eq!(
        manager.colors_rgb(),
        vec![[0xFF, 0x00, 0x00], [0x12, 0x3A, 0xBC], [0xAB, 0xC1, 0x23]]
    );
    assert_eq!(manager.colors_hex(), vec!["0xFF0000", "0x123ABC", "0xABC123"]);
    assert_eq!(manager.color_names(), vec!["red", "thing1", "thing2"]);
}

#[test]
fn test_for_each_pixel_row_major() {
    let pixels = vec![px(1, 0, 0, 255), px(2, 0, 0, 255), px(3, 0, 0, 255), px(4, 0, 0, 255)];
    let img = Image::new(2, 2, pixels).unwrap();
    let manager = Manager::new(img, ColorFile { entries: vec![entry("one", "010000")] }).unwrap();
    let all = manager.for_each_pixel();
    assert_eq!(all.len(), 4);
    let coords: Vec<(u32, u32)> = all.iter().map(|p| (p.x, p.y)).collect();
    assert_eq!(coords, vec![(0, 0), (1, 0), (0, 1), (1, 1)]);
    let reds: Vec<u8> = all.iter().map(|p| p.color.r).collect();
    assert_eq!(reds, vec![1, 2, 3, 4]);
    assert_eq!(all[0].color_name, "one");
    assert_eq!(all[1].color_name, "UNKNOWN");
    // Restartable: a fresh traversal yields the same sequence.
    let again = manager.for_each_pixel();
    assert_eq!(again.len(), 4);
    for (a, b) in all.iter().zip(again.iter()) {
        assert_eq!((a.x, a.y), (b.x, b.y));
        assert_eq!(a.color, b.color);
        assert_eq!(a.color_name, b.color_name);
    }
}

#[test]
fn test_image_new_checks_dimensions() {
    assert!(Image::new(2, 2, vec![px(0, 0, 0, 0); 3]).is_none());
    assert!(Image::new(0, 0, Vec::new()).is_some());
}

#[test]
fn test_defaults() {
    let e = ColorEntry::default();
    assert_eq!(e.name, "");
    assert_eq!(e.color, "");
    let f = ColorFile::default();
    assert!(f.entries.is_empty());
}

#[test]
fn test_pixel_data_hash_matches_manager() {
    let manager = Manager::new(test_image(), test_color_file()).unwrap();
    let pd = manager.get(3, 1).unwrap();
    assert_eq!(pd.hash(), manager.hash(3, 1).unwrap());
}
