use house_builder::savefile::{
    block_save_data, house_name_of, house_save_file, loaded_block, loaded_blocks,
    is_plain_name, save_file_name, saved_house_names, BlockPlacement, BlockSaveData, Orientation,
};

fn placement() -> BlockPlacement<f32> {
    BlockPlacement {
        center: [1.0, 0.5, -2.0],
        size: [1.0, 2.0, 1.0],
        rotation_x: 90.0,
        rotation_y: 270.0,
        rotation: [0.1, 0.2, 0.3, 0.9],
    }
}

#[test]
fn saving_writes_both_yaw_fields() {
    let r = block_save_data(&placement(), [0.8, 0.7, 0.6, 1.0]);
    assert_eq!(r.center, [1.0, 0.5, -2.0]);
    assert_eq!(r.size, [1.0, 2.0, 1.0]);
    assert_eq!(r.color, [0.8, 0.7, 0.6, 1.0]);
    assert_eq!(r.rotation_angle, 270.0);
    assert_eq!(r.rotation_x, Some(90.0));
    assert_eq!(r.rotation_y, Some(270.0));
    assert_eq!(r.rotation_quat, Some([0.1, 0.2, 0.3, 0.9]));
}

#[test]
fn saved_block_reads_back() {
    let b = placement();
    let l = loaded_block(&block_save_data(&b, [0.2, 0.4, 0.6, 0.5]), 0.0);
    assert_eq!(l.center, b.center);
    assert_eq!(l.size, b.size);
    assert_eq!(l.color, [0.2, 0.4, 0.6, 0.5]);
    assert_eq!(l.rotation_x, 90.0);
    assert_eq!(l.rotation_y, 270.0);
    assert!(matches!(l.orientation, Orientation::Stored(q) if q == [0.1, 0.2, 0.3, 0.9]));
}

#[test]
fn legacy_block_reads_back_level() {
    let r = BlockSaveData {
        center: [3.0, 0.5, 3.0],
        size: [1.0, 1.0, 1.0],
        color: [1.0, 0.0, 0.0, 1.0],
        rotation_angle: 45.0,
        rotation_x: None,
        rotation_y: None,
        rotation_quat: None,
    };
    let l = loaded_block(&r, 0.0f32);
    assert_eq!(l.rotation_x, 0.0);
    assert_eq!(l.rotation_y, 45.0);
    assert!(matches!(l.orientation, Orientation::FromAngles));
}

#[test]
fn partly_new_block_uses_what_it_has() {
    let r = BlockSaveData {
        center: [0.0; 3],
        size: [1.0; 3],
        color: [1.0; 4],
        rotation_angle: 10.0,
        rotation_x: Some(180.0),
        rotation_y: None,
        rotation_quat: None,
    };
    let l = loaded_block(&r, 0.0f32);
    assert_eq!(l.rotation_x, 180.0);
    assert_eq!(l.rotation_y, 10.0);
}

#[test]
fn unnamed_house_is_not_saved() {
    assert!(house_save_file::<f32>("", Vec::new()).is_none());
    let f = house_save_file("Villa", vec![block_save_data(&placement(), [1.0; 4])]).unwrap();
    assert_eq!(f.name, "Villa");
    assert_eq!(f.blocks.len(), 1);
    let l = loaded_blocks(&f, 0.0);
    assert_eq!(l.len(), 1);
    assert_eq!(l[0].rotation_y, 270.0);
}

#[test]
fn save_file_names() {
    assert_eq!(save_file_name("Villa").as_deref(), Some("Villa.json"));
    assert_eq!(save_file_name("a.b").as_deref(), Some("a.b.json"));
    assert_eq!(save_file_name("..").as_deref(), Some("...json"));
}

#[test]
fn names_with_path_separators_have_no_save_file() {
    for n in ["../x", "/tmp/x", "a/b", "x/"] {
        assert_eq!(save_file_name(n), None, "{n}");
        assert!(!is_plain_name(n));
    }
    assert!(is_plain_name("My House 2"));
    assert!(is_plain_name("ab:c"));
    assert_eq!(save_file_name("ab:c").as_deref(), Some("ab:c.json"));
    assert_eq!(save_file_name("a\\b").as_deref(), Some("a\\b.json"));
}

#[test]
fn every_listed_house_has_its_file() {
    let files: Vec<String> = ["ab:c.json", "x.json", "..json", "readme.md"]
        .iter()
        .map(|s| s.to_string())
        .collect();
    for name in saved_house_names(&files) {
        let f = save_file_name(&name).unwrap();
        assert!(files.contains(&f), "{name}");
    }
}

#[test]
fn save_file_name_is_found_again() {
    for n in ["Villa", "a.b", ".x", "my house"] {
        let f = save_file_name(n).unwrap();
        assert_eq!(house_name_of(&f).as_deref(), Some(n));
    }
}

#[test]
fn house_names_follow_path_extension_rules() {
    assert_eq!(house_name_of("Villa.json").as_deref(), Some("Villa"));
    assert_eq!(house_name_of("a.b.json").as_deref(), Some("a.b"));
    assert_eq!(house_name_of("..json").as_deref(), Some("."));
    assert_eq!(house_name_of(".json"), None);
    assert_eq!(house_name_of("Villa.JSON"), None);
    assert_eq!(house_name_of("Villa.json.bak"), None);
    assert_eq!(house_name_of("Villa"), None);
    assert_eq!(house_name_of("json"), None);
    assert_eq!(house_name_of("Villa.jsonx"), None);
}

#[test]
fn listing_keeps_order_and_skips_other_files() {
    let files: Vec<String> = ["b.json", "notes.txt", "a.json", ".json", "c.json"]
        .iter()
        .map(|s| s.to_string())
        .collect();
    assert_eq!(saved_house_names(&files), vec!["b", "a", "c"]);
    assert!(saved_house_names(&Vec::new()).is_empty());
}
