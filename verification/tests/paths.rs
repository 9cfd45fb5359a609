use cloakroom::file_path::FilePath;
use cloakroom::paths::Layout;

fn path(text: &str) -> FilePath {
    FilePath::from_text(text)
}

#[test]
fn xdg_config_home_overrides_home_and_makes_the_include_absolute() {
    let layout = Layout::new(Some(path("/custom/config")), Some(path("/home/user"))).unwrap();
    assert_eq!(layout.config_dir, path("/custom/config/cloakroom"));
    assert_eq!(
        layout.include_path,
        "/custom/config/cloakroom/generated/root.gitconfig"
    );
}

#[test]
fn home_alone_yields_a_tilde_include_that_git_expands() {
    let layout = Layout::new(None, Some(path("/home/user"))).unwrap();
    assert_eq!(layout.config_dir, path("/home/user/.config/cloakroom"));
    assert_eq!(
        layout.include_path,
        "~/.config/cloakroom/generated/root.gitconfig"
    );
}

#[test]
fn no_home_at_all_is_an_error() {
    assert!(Layout::new(None, None).is_err());
    assert_eq!(
        Layout::new(None, None).unwrap_err(),
        "cannot determine the home directory"
    );
}

#[test]
fn derived_paths_hang_off_the_config_dir() {
    let layout = Layout::new(None, Some(path("/h"))).unwrap();
    assert_eq!(
        layout.config_file(),
        path("/h/.config/cloakroom/config.toml")
    );
    assert_eq!(
        layout.object_gitconfig("abc"),
        path("/h/.config/cloakroom/generated/objects/abc.gitconfig")
    );
    assert_eq!(
        layout.root_gitconfig(),
        path("/h/.config/cloakroom/generated/root.gitconfig")
    );
    assert_eq!(
        layout.generated_dir(),
        path("/h/.config/cloakroom/generated")
    );
}

#[test]
fn a_config_home_that_is_not_text_is_an_error() {
    let bytes = FilePath {
        bytes: b"/custom/\xff".to_vec(),
    };
    assert_eq!(
        Layout::new(Some(bytes), None).unwrap_err(),
        "XDG_CONFIG_HOME is not valid UTF-8"
    );
}

#[test]
fn a_home_that_is_not_text_will_do() {
    let home = FilePath {
        bytes: b"/h\xff/".to_vec(),
    };
    let layout = Layout::new(None, Some(home)).unwrap();
    assert_eq!(layout.config_dir.bytes, b"/h\xff/.config/cloakroom".to_vec());
    assert_eq!(layout.config_dir.display(), "/h\u{fffd}/.config/cloakroom");
}

#[test]
fn a_relative_config_home_is_ignored() {
    let layout = Layout::from_env(Some(path("custom")), Some(path("/h"))).unwrap();
    assert_eq!(layout.config_dir, path("/h/.config/cloakroom"));
    let layout = Layout::from_env(Some(path("/custom")), Some(path("/h"))).unwrap();
    assert_eq!(layout.config_dir, path("/custom/cloakroom"));
}

#[test]
fn joining_and_comparing_agree_with_std() {
    let cases = [
        "", "/", "//", ".", "./", "..", "a", "/a", "a/", "./a", "a/.", "a/./b", "a//b", "a/b",
        "a/b/.", "a/..", "/./a", "/a/", "//a", "a/../b", "a/b/", ".a", "a.",
    ];
    for left in cases {
        for right in cases {
            let (a, b) = (std::path::Path::new(left), std::path::Path::new(right));
            assert_eq!(path(left).is_same(&path(right)), a == b, "{left:?} {right:?}");
            assert_eq!(
                path(left).join(right).display(),
                a.join(b).display().to_string(),
                "{left:?} {right:?}"
            );
        }
        assert_eq!(path(left).is_absolute(), std::path::Path::new(left).is_absolute());
    }
}

#[test]
fn the_include_leads_to_the_root() {
    let layout = Layout::new(Some(path("/custom/config/")), None).unwrap();
    assert_eq!(layout.include_path, layout.root_gitconfig().display());
    let layout = Layout::new(None, Some(path("/home/user"))).unwrap();
    assert_eq!(
        layout.include_path.replacen('~', "/home/user", 1),
        layout.root_gitconfig().display()
    );
}
