use sshell_rs::paths::extension;
use sshell_rs::wallpaper::{
    apply_outcome, ensure_thumb, matugen_argv, ThumbJob, templates_dir_in, theme_json_in, theme_step, ThemeStep,
    expand_home, is_img, show_commands, state_changed, thumb_dir_in, thumb_for, toggle_plan,
    which_candidates,
};

fn fnv1a(bytes: &[u8]) -> u64 {
    let mut h: u64 = 0xcbf29ce484222325;
    for b in bytes {
        h ^= *b as u64;
        h = h.wrapping_mul(0x100000001b3);
    }
    h
}

#[test]
fn image_files_by_extension() {
    assert!(is_img("a.jpg"));
    assert!(is_img("b.JPEG"));
    assert!(is_img("c.tar.PnG"));
    assert!(is_img("d.webp") && is_img("e.gif"));
    assert!(!is_img("f.txt"));
    assert!(!is_img(".png"));
    assert!(!is_img("png"));
    assert!(!is_img("g."));
    assert_eq!(extension("x.y.z"), Some("z".to_string()));
    assert_eq!(extension(".bashrc"), None);
    assert_eq!(extension("a."), Some("".to_string()));
    assert_eq!(extension("noext"), None);
}

#[test]
fn thumbnail_paths() {
    assert_eq!(thumb_dir_in("/home/u"), "/home/u/.cache/sshell/thumbnails");
    let src = "/home/u/Pictures/a.png";
    let expect = format!("/home/u/.cache/sshell/thumbnails/{:016x}.jpg", fnv1a(src.as_bytes()));
    assert_eq!(thumb_for("/home/u", src.as_bytes()), expect);
    assert_eq!(thumb_for("/h", b""), "/h/.cache/sshell/thumbnails/cbf29ce484222325.jpg");
    assert_eq!(thumb_for("/h", b"a"), "/h/.cache/sshell/thumbnails/af63dc4c8601ec8c.jpg");
}

#[test]
fn home_expansion_and_state() {
    assert_eq!(expand_home("~/Pictures", "/home/u"), "/home/u/Pictures");
    assert_eq!(expand_home("/a/~b~", "/h"), "/a/~b~");
    assert_eq!(expand_home("~", "/h"), "~");
    assert_eq!(expand_home("~user/x", "/h"), "~user/x");
    assert_eq!(expand_home("~/", "/h"), "/h/");
    assert_eq!(expand_home("/plain", "/h"), "/plain");
    assert!(!state_changed("/w/a.png\n", "/w/a.png"));
    assert!(state_changed("", "/w/a.png"));
    assert!(state_changed("/w/b.png", "/w/a.png"));
}

#[test]
fn visibility_toggle_commands() {
    let (v, cmds) = toggle_plan(true, Some("/w/a.png"));
    assert!(!v);
    assert_eq!(cmds, vec![vec!["hyprpaper".to_string(), "unload".to_string(), "all".to_string()]]);
    let (v, cmds) = toggle_plan(false, Some(" /w/a.png \n"));
    assert!(v);
    assert_eq!(cmds, show_commands("/w/a.png"));
    assert_eq!(cmds[1], vec!["hyprpaper".to_string(), "wallpaper".to_string(), ",/w/a.png".to_string()]);
    assert_eq!(toggle_plan(false, Some("  ")), (true, vec![]));
    assert_eq!(toggle_plan(false, None), (true, vec![]));
}

#[test]
fn path_search_candidates() {
    assert_eq!(
        which_candidates("/usr/bin:/bin", "matugen"),
        vec!["/usr/bin/matugen".to_string(), "/bin/matugen".to_string()]
    );
    assert_eq!(which_candidates("", "m"), vec!["m".to_string()]);
    assert_eq!(which_candidates("a::b/", "m"), vec!["a/m".to_string(), "m".to_string(), "b/m".to_string()]);
}

#[test]
fn theme_generation_plan() {
    assert_eq!(
        matugen_argv("/w/a.png", true),
        vec!["matugen", "image", "/w/a.png", "-t", "scheme-vibrant", "--json", "hex", "--dry-run"]
    );
    assert_eq!(matugen_argv("/w/a.png", false), vec!["matugen", "image", "/w/a.png", "-t", "scheme-vibrant"]);
    assert_eq!(theme_step(false, true), ThemeStep::Keep);
    assert_eq!(theme_step(true, true), ThemeStep::Regenerate);
    assert_eq!(theme_step(true, false), ThemeStep::NoGenerator);
    assert_eq!(apply_outcome(ThemeStep::Keep, false), Ok("unchanged (theme kept)".to_string()));
    assert_eq!(apply_outcome(ThemeStep::NoGenerator, false), Ok("matugen not installed (wallpaper set)".to_string()));
    assert_eq!(apply_outcome(ThemeStep::Regenerate, true), Ok("theme regenerated".to_string()));
    assert_eq!(apply_outcome(ThemeStep::Regenerate, false), Err("matugen failed".to_string()));
    assert_eq!(theme_json_in("/home/u"), "/home/u/.config/sshell/material-theme.json");
    assert_eq!(templates_dir_in("/home/u"), "/home/u/.config/matugen/templates");
}

fn png_bytes(w: u32, h: u32) -> Vec<u8> {
    let img = image::RgbImage::from_fn(w, h, |x, y| image::Rgb([(x % 256) as u8, (y % 256) as u8, 7]));
    let mut out = std::io::Cursor::new(Vec::new());
    image::DynamicImage::ImageRgb8(img).write_to(&mut out, image::ImageFormat::Png).unwrap();
    out.into_inner()
}

#[test]
fn thumbnails_are_256_square_jpegs() {
    let src = "/w/a.png";
    let png = png_bytes(300, 200);
    match ensure_thumb("/h", src, "a.png", false, Some(&png)) {
        ThumbJob::Write { jpeg, tmp, dst } => {
            assert_eq!(dst, thumb_for("/h", src.as_bytes()));
            assert_eq!(tmp, dst.replace(".jpg", ".tmp.jpg"));
            let t = image::load_from_memory_with_format(&jpeg, image::ImageFormat::Jpeg).unwrap();
            assert_eq!((t.width(), t.height()), (256, 256));
        }
        other => panic!("unexpected {:?}", other),
    }
    assert!(matches!(ensure_thumb("/h", src, "a.PNG", false, Some(&png)), ThumbJob::Write { .. }));
    assert!(matches!(ensure_thumb("/h", src, "a.png", true, None), ThumbJob::Cached(p) if p == thumb_for("/h", src.as_bytes())));
    assert!(matches!(ensure_thumb("/h", src, "a.png", false, None), ThumbJob::Failed));
    assert!(matches!(ensure_thumb("/h", src, "a.png", false, Some(b"not an image")), ThumbJob::Failed));
    assert!(matches!(ensure_thumb("/h", src, "noext", false, Some(&png)), ThumbJob::Failed));
    assert!(matches!(ensure_thumb("/h", src, "a.jpg", false, Some(&png)), ThumbJob::Failed));
}
