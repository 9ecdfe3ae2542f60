use container_desktop_entries::icon::{lookup_icon, stem_of_str, IconFormat};
use container_desktop_entries::text::parse_u32_str;

fn strings(v: &[&str]) -> Vec<String> {
    v.iter().map(|s| s.to_string()).collect()
}

#[test]
fn vector_beats_raster_either_order() {
    let a = strings(&[
        "/ws/icons/hicolor/48x48/apps/myapp.png",
        "/ws/icons/hicolor/scalable/apps/myapp.svg",
    ]);
    let r = lookup_icon("myapp", &a, &Vec::new()).unwrap();
    assert_eq!(r.path, "/ws/icons/hicolor/scalable/apps/myapp.svg");
    assert_eq!(r.format, IconFormat::Vector);

    let b = strings(&[
        "/ws/icons/hicolor/scalable/apps/myapp.svg",
        "/ws/icons/hicolor/48x48/apps/myapp.png",
    ]);
    let r = lookup_icon("myapp", &b, &Vec::new()).unwrap();
    assert_eq!(r.path, "/ws/icons/hicolor/scalable/apps/myapp.svg");
    assert_eq!(r.format, IconFormat::Vector);
}

#[test]
fn larger_raster_bucket_wins_either_order() {
    let a = strings(&[
        "/ws/icons/hicolor/48x48/apps/ic.png",
        "/ws/icons/hicolor/96x96/apps/ic.png",
    ]);
    let r = lookup_icon("ic", &a, &Vec::new()).unwrap();
    assert_eq!(r.path, "/ws/icons/hicolor/96x96/apps/ic.png");
    assert_eq!(r.format, IconFormat::Raster(96));

    let b = strings(&[
        "/ws/icons/hicolor/96x96/apps/ic.png",
        "/ws/icons/hicolor/48x48/apps/ic.png",
    ]);
    let r = lookup_icon("ic", &b, &Vec::new()).unwrap();
    assert_eq!(r.path, "/ws/icons/hicolor/96x96/apps/ic.png");
}

#[test]
fn equal_scores_keep_first_candidate() {
    let a = strings(&[
        "/ws/icons/one/48x48/apps/ic.png",
        "/ws/icons/two/48x48/apps/ic.png",
    ]);
    let r = lookup_icon("ic", &a, &Vec::new()).unwrap();
    assert_eq!(r.path, "/ws/icons/one/48x48/apps/ic.png");
}

#[test]
fn unparseable_size_defaults_to_minimum() {
    let a = strings(&[
        "/ws/icons/flat/ic.png",
        "/ws/icons/hicolor/32x32/apps/ic.png",
    ]);
    let r = lookup_icon("ic", &a, &Vec::new()).unwrap();
    assert_eq!(r.path, "/ws/icons/hicolor/32x32/apps/ic.png");
    assert_eq!(r.format, IconFormat::Raster(32));
}

#[test]
fn non_matching_stems_are_ignored() {
    let a = strings(&["/ws/icons/hicolor/48x48/apps/other.png"]);
    assert!(lookup_icon("ic", &a, &Vec::new()).is_none());
}

#[test]
fn pixmap_fallback_takes_first_stem_match() {
    let pix = strings(&["/ws/pixmaps/zz.xpm", "/ws/pixmaps/ic.xpm", "/ws/pixmaps/ic.png"]);
    let r = lookup_icon("ic", &Vec::new(), &pix).unwrap();
    assert_eq!(r.path, "/ws/pixmaps/ic.xpm");
    assert_eq!(r.format, IconFormat::Other);
}

#[test]
fn icon_tree_match_beats_pixmap_fallback() {
    let icons = strings(&["/ws/icons/hicolor/48x48/apps/ic.png"]);
    let pix = strings(&["/ws/pixmaps/ic.xpm"]);
    let r = lookup_icon("ic", &icons, &pix).unwrap();
    assert_eq!(r.path, "/ws/icons/hicolor/48x48/apps/ic.png");
}

#[test]
fn no_match_anywhere_is_none() {
    assert!(lookup_icon("ic", &Vec::new(), &Vec::new()).is_none());
}

#[test]
fn stem_strips_directory_and_last_extension() {
    assert_eq!(stem_of_str("/a/b/c.png"), "c");
    assert_eq!(stem_of_str("c.tar.gz"), "c.tar");
    assert_eq!(stem_of_str("/a/b/noext"), "noext");
    assert_eq!(stem_of_str(".hidden"), ".hidden");
}

#[test]
fn parse_u32_accepts_plain_decimals() {
    assert_eq!(parse_u32_str("48"), Some(48));
    assert_eq!(parse_u32_str("+7"), Some(7));
    assert_eq!(parse_u32_str("4294967295"), Some(u32::MAX));
    assert_eq!(parse_u32_str("4294967296"), None);
    assert_eq!(parse_u32_str(""), None);
    assert_eq!(parse_u32_str("12x"), None);
    assert_eq!(parse_u32_str("-3"), None);
}
