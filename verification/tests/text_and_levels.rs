use kamplud::levels::{capitalize_with, is_level_file, level_asset_path, level_menu, level_name, level_name_start};
use kamplud::presence::{level_presence, menu_presence};
use kamplud::text::{decimal_text, score_label};

#[test]
fn decimal_text_writes_plain_decimal() {
    assert_eq!(decimal_text(0), "0");
    assert_eq!(decimal_text(7), "7");
    assert_eq!(decimal_text(305), "305");
    assert_eq!(decimal_text(1000), "1000");
    assert_eq!(decimal_text(usize::MAX), usize::MAX.to_string());
}

#[test]
fn score_label_reads_poentaro() {
    assert_eq!(score_label(0), "Poentaro: 0");
    assert_eq!(score_label(42), "Poentaro: 42");
}

#[test]
fn level_files_end_with_glb() {
    assert!(is_level_file("./assets/scenes/forest.glb"));
    assert!(is_level_file(".glb"));
    assert!(!is_level_file("./assets/scenes/forest.gltf"));
    assert!(!is_level_file("glb"));
    assert!(!is_level_file("./assets/scenes/notes.txt"));
}

#[test]
fn level_name_is_capitalised_file_stem() {
    assert_eq!(level_name("./assets/scenes/forest.glb"), "Forest");
    assert_eq!(level_name("./assets/scenes/lava_world.glb"), "Lava_world");
    assert_eq!(level_name("x.glb"), "X");
    assert_eq!(level_name("./assets/scenes/.glb"), "");
    assert_eq!(level_name("./ĉambroj/lago.glb"), "Lago");
    // One byte too many is counted for "ĉ": the name starts at it.
    assert_eq!(level_name("./a/xĉ.glb"), "Ĉ");
}

#[test]
fn level_name_start_counts_characters_from_the_byte_length() {
    // Four bytes of directory, then "aé.glb": seven bytes but six characters.
    assert_eq!(level_name_start("./a/aé.glb"), 5);
    assert_eq!(level_name("./a/aé.glb"), "É");
    assert_eq!(level_name_start("./assets/scenes/forest.glb"), 16);
    assert_eq!(level_name_start("forest.glb"), 0);
}

#[test]
fn level_menu_lists_level_files_in_order() {
    let paths = vec![
        "./assets/scenes/b.glb".to_string(),
        "./assets/scenes/readme.txt".to_string(),
        "./assets/scenes/a_b.glb".to_string(),
    ];
    let menu = level_menu(&paths).expect("all level files can be named");
    assert_eq!(menu.len(), 2);
    assert_eq!(menu[0].name, "B");
    assert_eq!(menu[0].path, "./assets/scenes/b.glb");
    assert_eq!(menu[1].name, "A_b");
    assert_eq!(menu[1].path, "./assets/scenes/a_b.glb");
    assert_eq!(level_menu(&vec![]).map(|m| m.len()), Some(0));
}

#[test]
fn level_menu_refuses_a_name_cut_inside_a_character() {
    // "éa.glb": the cut lands in the middle of "é".
    let paths = vec!["./assets/scenes/ok.glb".to_string(), "./a/éa.glb".to_string()];
    assert!(level_menu(&paths).is_none());
    // A file that is not a level is never named, whatever its name.
    let others = vec!["./a/éa.txt".to_string()];
    assert_eq!(level_menu(&others).map(|m| m.len()), Some(0));
}

#[test]
fn chosen_level_path_drops_assets_prefix() {
    assert_eq!(level_asset_path("./assets/scenes/forest.glb"), "scenes/forest.glb");
    assert_eq!(level_asset_path("./assets/"), "");
}

#[test]
fn menu_presence_texts() {
    let p = menu_presence(7);
    assert_eq!(p.details, "Poentaro: 7");
    assert_eq!(p.state.as_deref(), Some("En menuo"));
    assert_eq!(p.large_image, "kamplud_");
    assert_eq!(p.large_text, "Kamplud': esperanta ludo!");
}

#[test]
fn level_presence_texts() {
    let p = level_presence(3, Some("scenes/forest.glb"));
    assert_eq!(p.details, "Poentaro: 3");
    assert_eq!(p.state.as_deref(), Some("Ludante `forest.glb`"));
    assert_eq!(p.large_image, "kamplud_");
    let q = level_presence(0, None);
    assert_eq!(q.details, "Poentaro: 0");
    assert!(q.state.is_none());
}

#[test]
fn chosen_level_shows_its_file_in_presence() {
    let stored = level_asset_path("./assets/scenes/cave.glb");
    let p = level_presence(1, Some(stored.as_str()));
    assert_eq!(p.state.as_deref(), Some("Ludante `cave.glb`"));
}

#[test]
fn capitalize_with_replaces_first_character() {
    assert_eq!(capitalize_with("forest", "F".to_string()), "Forest");
    assert_eq!(capitalize_with("ßee", "SS".to_string()), "SSee");
    assert_eq!(capitalize_with("", "X".to_string()), "");
    assert_eq!(capitalize_with("a", "A".to_string()), "A");
}
