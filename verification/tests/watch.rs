use rojo::imfs::{decoder_for, DecoderKind, Imfs, ImfsSnapshot};
use rojo::watch::{Debouncer, WatchMode, DEBOUNCE_MILLIS};

#[test]
fn first_notification_for_a_path_is_let_through() {
    let mut d = Debouncer::new();
    assert!(d.let_through("/a", 0));
    assert!(d.let_through("/b", 1));
}

#[test]
fn burst_for_one_path_is_coalesced() {
    let mut d = Debouncer::new();
    assert!(d.let_through("/a", 1000));
    assert!(!d.let_through("/a", 1001));
    assert!(!d.let_through("/a", 1299));
    assert!(d.let_through("/a", 1300));
    assert!(!d.let_through("/a", 1599));
    assert!(d.let_through("/a", 1600));
}

#[test]
fn refused_notification_does_not_extend_the_quiet_time() {
    let mut d = Debouncer::new();
    assert!(d.let_through("/a", 0));
    assert!(!d.let_through("/a", 200));
    assert!(d.let_through("/a", 300));
}

#[test]
fn paths_are_debounced_apart() {
    let mut d = Debouncer::new();
    assert!(d.let_through("/a", 1000));
    assert!(d.let_through("/b", 1001));
    assert!(!d.let_through("/a", 1002));
    assert!(!d.let_through("/b", 1002));
}

#[test]
fn clock_that_goes_back_lets_through() {
    let mut d = Debouncer::new();
    assert!(d.let_through("/a", 1000));
    assert!(d.let_through("/a", 10));
}

#[test]
fn debounce_time() {
    assert_eq!(DEBOUNCE_MILLIS, 300);
    assert_ne!(WatchMode::Enabled, WatchMode::Disabled);
}

#[test]
fn decoder_goes_by_the_end_of_the_name() {
    assert_eq!(decoder_for("/p/default.project.json"), DecoderKind::Project);
    assert_eq!(decoder_for("/p/a.project.json"), DecoderKind::Project);
    assert_eq!(decoder_for("/p/a.meta.json"), DecoderKind::Meta);
    assert_eq!(decoder_for("/p/a.model.json"), DecoderKind::JsonModel);
    assert_eq!(decoder_for("/p/a.rbxmx"), DecoderKind::XmlModel);
    assert_eq!(decoder_for("/p/a.rbxm"), DecoderKind::BinaryModel);
    assert_eq!(decoder_for("/p/a.lua"), DecoderKind::Plain);
    assert_eq!(decoder_for("/p/a.csv"), DecoderKind::Plain);
    assert_eq!(decoder_for("/p/a.json"), DecoderKind::Plain);
    assert_eq!(decoder_for("/p.rbxm/a"), DecoderKind::Plain);
}

#[test]
fn entry_loaded_before_its_directory_is_listed_when_the_directory_comes() {
    let mut imfs = Imfs::new();
    imfs.load_from_snapshot("/d/b.lua", ImfsSnapshot::file("b"));
    imfs.load_from_snapshot("/d/a.lua", ImfsSnapshot::file("a"));
    imfs.load_from_snapshot("/other/c.lua", ImfsSnapshot::file("c"));
    assert_eq!(imfs.children("/d"), None);
    imfs.load_directory("/d");
    assert_eq!(imfs.children("/d"), Some(vec!["/d/b.lua".to_string(), "/d/a.lua".to_string()]));
    imfs.load_from_snapshot("/d/z.lua", ImfsSnapshot::file("z"));
    imfs.load_from_snapshot("/d/a.lua", ImfsSnapshot::file("again"));
    assert_eq!(
        imfs.children("/d"),
        Some(vec!["/d/b.lua".to_string(), "/d/a.lua".to_string(), "/d/z.lua".to_string()])
    );
    imfs.remove("/d/a.lua");
    assert_eq!(imfs.children("/d"), Some(vec!["/d/b.lua".to_string(), "/d/z.lua".to_string()]));
    assert!(imfs.contains("/other/c.lua"));
}
