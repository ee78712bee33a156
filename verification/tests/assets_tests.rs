use trustworthy_dolphin::assets::AssetEntry;
use trustworthy_dolphin::assets::AssetIoError;
use trustworthy_dolphin::assets::EmbeddedAssetIo;
use trustworthy_dolphin::util::Also;

fn entry(path: &str, bytes: &[u8]) -> AssetEntry {
    AssetEntry { path: path.as_bytes().to_vec(), bytes: bytes.to_vec() }
}

fn catalog() -> EmbeddedAssetIo {
    EmbeddedAssetIo::new(vec![
        entry("faith.ase", b"faith-bytes"),
        entry("wave.ase", b"wave-bytes"),
        entry("sprites/bubble.ase", b"bubble-bytes"),
        entry("sprites/fish.ase", b"fish-bytes"),
    ])
}

#[test]
fn load_path_finds_embedded_bytes() {
    let io = catalog();
    let bytes = io.load_path(&b"wave.ase".to_vec()).expect("present");
    assert_eq!(bytes, b"wave-bytes".to_vec());
    let nested = io.load_path(&b"sprites/fish.ase".to_vec()).expect("present");
    assert_eq!(nested, b"fish-bytes".to_vec());
}

#[test]
fn load_path_reports_the_missing_path() {
    let io = catalog();
    match io.load_path(&b"shark.ase".to_vec()) {
        Ok(_) => panic!("should be missing"),
        Err(AssetIoError::NotFound(p)) => assert_eq!(p, b"shark.ase".to_vec()),
    }
}

#[test]
fn directories_group_assets_by_parent() {
    let io = catalog();
    assert!(io.is_directory(&b"".to_vec()));
    assert!(io.is_directory(&b"sprites".to_vec()));
    assert!(!io.is_directory(&b"faith.ase".to_vec()));
    assert!(!io.is_directory(&b"nowhere".to_vec()));

    let top = io.read_directory(&b"".to_vec()).expect("top level");
    assert_eq!(top, vec![b"faith.ase".to_vec(), b"wave.ase".to_vec()]);

    let sprites = io.read_directory(&b"sprites".to_vec()).expect("nested");
    assert_eq!(sprites, vec![b"sprites/bubble.ase".to_vec(), b"sprites/fish.ase".to_vec()]);

    match io.read_directory(&b"nowhere".to_vec()) {
        Ok(_) => panic!("should be missing"),
        Err(AssetIoError::NotFound(p)) => assert_eq!(p, b"nowhere".to_vec()),
    }
}

#[test]
fn also_applies_the_callback_in_place() {
    let doubled = 21i64.also(|x| x * 2);
    assert_eq!(doubled, 42);
    let greeting = String::from("bonk").also(|mut s| {
        s.push('!');
        s
    });
    assert_eq!(greeting, "bonk!");
}
