use satellite_imagery_downloader::Args;

#[test]
fn args_carry_parsed_values() {
    let args = Args {
        prefs: String::from("./preferences.json"),
        open: false,
        url: Some(String::from("https://mt.example.com/vt/x={x}&y={y}&z={z}")),
        tile_size: Some(256),
        out_dir: None,
        top_left: Some(String::from("52.70868, 5.68805")),
        bottom_right: Some(String::from("52.55495, 5.87903")),
        zoom: Some(13),
    };
    assert_eq!(args.prefs, "./preferences.json");
    assert!(!args.open);
    assert_eq!(args.tile_size, Some(256));
    assert_eq!(args.zoom, Some(13));
    assert!(args.out_dir.is_none());
}
