use bad_north_save::output_paths::{default_binary_output, default_json_output};

#[test]
fn json_output_replaces_extension() {
    assert_eq!(default_json_output("save.dat"), "save.json");
    assert_eq!(default_json_output("dir/save.dat"), "dir/save.json");
    assert_eq!(default_json_output("save"), "save.json");
    assert_eq!(default_json_output("archive.tar.gz"), "archive.tar.json");
    assert_eq!(default_json_output("my.dir/save"), "my.dir/save.json");
    assert_eq!(default_json_output(".hidden"), ".hidden.json");
    assert_eq!(default_json_output(""), ".json");
}

#[test]
fn binary_output_replaces_extension() {
    assert_eq!(default_binary_output("save.json"), "save.dat");
    assert_eq!(default_binary_output("dir/save.json"), "dir/save.dat");
    assert_eq!(default_binary_output("save.dat.json"), "save.dat.dat");
    assert_eq!(default_binary_output("save"), "save.dat");
    assert_eq!(default_binary_output(".json"), ".json.dat");
}
