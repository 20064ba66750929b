use streamshit::path::{get_extension, get_file_name};

#[test]
fn file_name_is_the_last_component() {
    assert_eq!(get_file_name("videos/a.mkv"), Some("a.mkv"));
    assert_eq!(get_file_name("/srv/videos/b.mp4"), Some("b.mp4"));
    assert_eq!(get_file_name("./c.avi"), Some("c.avi"));
    assert_eq!(get_file_name("plain.mov"), Some("plain.mov"));
    assert_eq!(get_file_name("dir.d/plain"), Some("plain"));
    assert_eq!(get_file_name("a//b"), Some("b"));
    assert_eq!(get_file_name("..."), Some("..."));
    assert_eq!(get_file_name(".hidden"), Some(".hidden"));
    assert_eq!(get_file_name("\u{e9}/\u{1F3AC}.mp4"), Some("\u{1F3AC}.mp4"));
}

#[test]
fn file_name_passes_over_trailing_separators_and_dots() {
    assert_eq!(get_file_name("dir/"), Some("dir"));
    assert_eq!(get_file_name("a.mkv/"), Some("a.mkv"));
    assert_eq!(get_file_name("a.mkv//"), Some("a.mkv"));
    assert_eq!(get_file_name("a.mkv/."), Some("a.mkv"));
    assert_eq!(get_file_name("a.mkv/./"), Some("a.mkv"));
    assert_eq!(get_file_name("/x/./."), Some("x"));
    assert_eq!(get_file_name("./x/"), Some("x"));
}

#[test]
fn file_name_is_missing_where_nothing_is_named() {
    assert_eq!(get_file_name(""), None);
    assert_eq!(get_file_name("/"), None);
    assert_eq!(get_file_name("//"), None);
    assert_eq!(get_file_name("."), None);
    assert_eq!(get_file_name("./"), None);
    assert_eq!(get_file_name("./."), None);
    assert_eq!(get_file_name("/."), None);
    assert_eq!(get_file_name(".."), None);
    assert_eq!(get_file_name("../"), None);
    assert_eq!(get_file_name("a/.."), None);
    assert_eq!(get_file_name("a/../"), None);
    assert_eq!(get_file_name("a/../."), None);
    assert_eq!(get_file_name("/.."), None);
}

#[test]
fn extension_follows_the_last_dot() {
    assert_eq!(get_extension("a.mp4"), Some("mp4"));
    assert_eq!(get_extension("videos/a.MKV"), Some("MKV"));
    assert_eq!(get_extension("x.tar.gz"), Some("gz"));
    assert_eq!(get_extension("..a"), Some("a"));
    assert_eq!(get_extension("a."), Some(""));
    assert_eq!(get_extension("..."), Some(""));
    assert_eq!(get_extension("a.mp4/"), Some("mp4"));
    assert_eq!(get_extension("a.mkv/."), Some("mkv"));
    assert_eq!(get_extension("v/a.mkv//"), Some("mkv"));
}

#[test]
fn extension_is_missing_without_a_dot_inside_the_name() {
    assert_eq!(get_extension("noext"), None);
    assert_eq!(get_extension(".mp4"), None);
    assert_eq!(get_extension("videos/.hidden"), None);
    assert_eq!(get_extension("dir.d/noext"), None);
    assert_eq!(get_extension(".."), None);
    assert_eq!(get_extension("videos/.."), None);
    assert_eq!(get_extension("a.mp4/.."), None);
    assert_eq!(get_extension("."), None);
    assert_eq!(get_extension(""), None);
    assert_eq!(get_extension("/"), None);
}

#[test]
fn file_name_and_extension_agree_with_std() {
    let paths = [
        "a.mp4", "A.MP4", "noext", ".hidden", "..", "...", "a.", "..a", "x.tar.gz", "a.b.c.d",
        "\u{e9}.m\u{212A}v", ".a.b", "", "/", "//", ".", "./", "./.", "/.", "../", "a/..",
        "a/../", "a/../.", "/..", "a.mkv/", "a.mkv//", "a.mkv/.", "a.mkv/./", "/x/./.", "./x/",
        "a//b", "/a/b.c", "a/b/", "a/./b.mp4", "./a", ".a/", "a/.b", "a/.b.", "a/b./", "..../x",
        "x/....", "x/. ", " /", "a\\b.c", "/.../", "\u{1F3AC}/\u{e9}.x/./",
    ];
    for path in paths.iter() {
        let std_path = std::path::Path::new(path);
        let name = std_path.file_name().and_then(|n| n.to_str());
        let ext = std_path.extension().and_then(|e| e.to_str());
        assert_eq!(get_file_name(path), name, "file name of {:?}", path);
        assert_eq!(get_extension(path), ext, "extension of {:?}", path);
    }
}

#[test]
fn file_name_and_extension_agree_with_std_on_all_short_paths() {
    let letters = ['/', '.', 'a', 'b'];
    let mut paths = vec![String::new()];
    let mut from = 0;
    for _ in 0..6 {
        let upto = paths.len();
        for i in from..upto {
            for c in letters.iter() {
                let mut longer = paths[i].clone();
                longer.push(*c);
                paths.push(longer);
            }
        }
        from = upto;
    }
    assert_eq!(paths.len(), 5461);
    for path in paths.iter() {
        let std_path = std::path::Path::new(path);
        let name = std_path.file_name().and_then(|n| n.to_str());
        let ext = std_path.extension().and_then(|e| e.to_str());
        assert_eq!(get_file_name(path), name, "file name of {:?}", path);
        assert_eq!(get_extension(path), ext, "extension of {:?}", path);
    }
}
