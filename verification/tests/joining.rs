use std::path::Path;

use diskvis::config::config_path;
use diskvis::tui::spotlight::expand_tilde;

#[test]
fn paths_are_joined_as_paths_are() {
    for home in ["/home/me", "/home/me/", "/", "", "a", "a//", "é/"] {
        for rest in ["", "x", "x/y", "/x", "//x", ".", "../x", "x/", "ü"] {
            let typed = format!("~/{}", rest);
            let want = Path::new(home).join(rest).to_string_lossy().into_owned();
            assert_eq!(expand_tilde(&typed, Some(home)), want, "{} {}", home, rest);
        }
        let want = Path::new(home).join(".config").join("diskvis").join("config.toml");
        assert_eq!(config_path(Some(home)).unwrap(), want.to_string_lossy());
    }
}
