use streamshit::catalog::{get_video_list, DirEntry, VideoEntry};
use streamshit::router::{find_video, get_request_name, respond, router, Route};

fn two_videos() -> Vec<VideoEntry> {
    get_video_list(&[
        DirEntry { path: "videos/b.mp4".to_string(), is_file: true },
        DirEntry { path: "videos/a.mkv".to_string(), is_file: true },
    ])
}

fn header<'a>(headers: &'a [(String, String)], name: &str) -> Option<&'a str> {
    headers.iter().find(|(k, _)| k == name).map(|(_, v)| v.as_str())
}

#[test]
fn get_root_leads_to_the_index() {
    assert_eq!(router("GET", "/", &two_videos()), Route::Index);
    assert_eq!(router("GET", "/", &[]), Route::Index);
}

#[test]
fn get_alias_and_get_file_name_lead_to_the_same_video() {
    let videos = two_videos();
    assert_eq!(router("GET", "/1.mkv", &videos), Route::Video(0));
    assert_eq!(router("GET", "/a.mkv", &videos), Route::Video(0));
    assert_eq!(router("GET", "/2.mp4", &videos), Route::Video(1));
    assert_eq!(router("GET", "/b.mp4", &videos), Route::Video(1));
}

#[test]
fn get_unknown_name_is_not_found() {
    let videos = two_videos();
    assert_eq!(router("GET", "/3.mp4", &videos), Route::NotFound);
    assert_eq!(router("GET", "/1.mp4", &videos), Route::NotFound);
    assert_eq!(router("GET", "/c.mp4", &videos), Route::NotFound);
    assert_eq!(router("GET", "/A.mkv", &videos), Route::NotFound);
    assert_eq!(router("GET", "/a.mkv?x=1", &videos), Route::NotFound);
    assert_eq!(router("GET", "/videos/a.mkv", &videos), Route::NotFound);
    assert_eq!(router("GET", "//", &videos), Route::NotFound);
    assert_eq!(router("GET", "", &videos), Route::NotFound);
    assert_eq!(router("GET", "/anything", &[]), Route::NotFound);
}

#[test]
fn other_methods_are_not_found() {
    let videos = two_videos();
    for method in ["POST", "PUT", "DELETE", "HEAD", "OPTIONS", "PATCH", "get", "Get", "", "GETX"].iter() {
        assert_eq!(router(method, "/", &videos), Route::NotFound, "{}", method);
        assert_eq!(router(method, "/1.mkv", &videos), Route::NotFound, "{}", method);
        assert_eq!(router(method, "/a.mkv", &videos), Route::NotFound, "{}", method);
        assert_eq!(router(method, "/nothing", &videos), Route::NotFound, "{}", method);
    }
    let response = respond(router("POST", "/", &videos), &videos, "http://h:1", None);
    assert_eq!(response.status, 404);
}

#[test]
fn traversal_is_not_found() {
    let videos = two_videos();
    for path in [
        "/../../etc/passwd",
        "/..",
        "/../a.mkv",
        "/videos/../videos/a.mkv",
        "/./a.mkv",
        "/../videos/a.mkv",
        "..",
        "../a.mkv",
        "/1.mkv/..",
    ]
    .iter()
    {
        assert_eq!(router("GET", path, &videos), Route::NotFound, "{}", path);
        let response = respond(router("GET", path, &videos), &videos, "http://h:1", None);
        assert_eq!(response.status, 404);
        assert_eq!(response.body, b"<h1>404 Not Found</h1>".to_vec());
    }
}

#[test]
fn path_without_leading_slash_is_matched_as_it_stands() {
    let videos = two_videos();
    assert_eq!(router("GET", "1.mkv", &videos), Route::Video(0));
    assert_eq!(router("GET", "b.mp4", &videos), Route::Video(1));
}

#[test]
fn request_name_drops_one_leading_slash() {
    assert_eq!(get_request_name("/a.mkv"), "a.mkv");
    assert_eq!(get_request_name("a.mkv"), "a.mkv");
    assert_eq!(get_request_name("//a.mkv"), "/a.mkv");
    assert_eq!(get_request_name("/"), "");
    assert_eq!(get_request_name(""), "");
    assert_eq!(get_request_name("/\u{e9}.mp4"), "\u{e9}.mp4");
}

#[test]
fn first_match_wins() {
    let videos = get_video_list(&[
        DirEntry { path: "v/2.mp4".to_string(), is_file: true },
        DirEntry { path: "v/a.mp4".to_string(), is_file: true },
    ]);
    assert_eq!(videos[0].path, "v/2.mp4");
    assert_eq!(videos[0].alias, "1.mp4");
    assert_eq!(videos[1].alias, "2.mp4");
    assert_eq!(find_video(&videos, "2.mp4"), Some(0));
    assert_eq!(find_video(&videos, "1.mp4"), Some(0));
    assert_eq!(find_video(&videos, "a.mp4"), Some(1));
    assert_eq!(router("GET", "/2.mp4", &videos), Route::Video(0));
}

#[test]
fn find_video_looks_at_alias_and_file_name_only() {
    let videos = two_videos();
    assert_eq!(find_video(&videos, "1.mkv"), Some(0));
    assert_eq!(find_video(&videos, "a.mkv"), Some(0));
    assert_eq!(find_video(&videos, "videos/a.mkv"), None);
    assert_eq!(find_video(&videos, ""), None);
    assert_eq!(find_video(&videos, "a"), None);
    assert_eq!(find_video(&[], "a.mkv"), None);
}

#[test]
fn find_video_works_on_any_entries() {
    let videos = vec![
        VideoEntry { path: "x/one.mp4".to_string(), alias: "first".to_string() },
        VideoEntry { path: "x/two.mp4".to_string(), alias: "one.mp4".to_string() },
    ];
    assert_eq!(find_video(&videos, "first"), Some(0));
    assert_eq!(find_video(&videos, "one.mp4"), Some(0));
    assert_eq!(find_video(&videos, "two.mp4"), Some(1));
}

#[test]
fn find_video_matches_a_nameless_entry_by_alias_only() {
    let videos = vec![
        VideoEntry { path: "..".to_string(), alias: "up".to_string() },
        VideoEntry { path: "/".to_string(), alias: "root".to_string() },
        VideoEntry { path: "v/a.mp4/".to_string(), alias: "1.mp4".to_string() },
    ];
    assert_eq!(find_video(&videos, "up"), Some(0));
    assert_eq!(find_video(&videos, "root"), Some(1));
    assert_eq!(find_video(&videos, ".."), None);
    assert_eq!(find_video(&videos, ""), None);
    assert_eq!(find_video(&videos, "/"), None);
    assert_eq!(find_video(&videos, "a.mp4"), Some(2));
    assert_eq!(find_video(&videos, "a.mp4/"), None);
}

#[test]
fn respond_serves_the_video_of_the_route() {
    let videos = two_videos();
    let route = router("GET", "/1.mkv", &videos);
    let response = respond(route, &videos, "http://h:1", Some(vec![0, 159, 146, 150, 255]));
    assert_eq!(response.status, 200);
    assert_eq!(header(&response.headers, "Content-Type"), Some("video/x-matroska"));
    assert_eq!(header(&response.headers, "Accept-Ranges"), Some("bytes"));
    assert_eq!(header(&response.headers, "Cache-Control"), Some("public, max-age=3600"));
    assert_eq!(response.body, vec![0, 159, 146, 150, 255]);

    let by_name = respond(router("GET", "/a.mkv", &videos), &videos, "http://h:1", Some(vec![7]));
    assert_eq!(by_name.status, 200);
    assert_eq!(header(&by_name.headers, "Content-Type"), Some("video/x-matroska"));
    assert_eq!(by_name.body, vec![7]);

    let other = respond(router("GET", "/2.mp4", &videos), &videos, "http://h:1", Some(vec![]));
    assert_eq!(other.status, 200);
    assert_eq!(header(&other.headers, "Content-Type"), Some("video/mp4"));
    assert_eq!(other.body, Vec::<u8>::new());
}

#[test]
fn respond_says_not_found_when_the_file_is_gone() {
    let videos = two_videos();
    let response = respond(Route::Video(1), &videos, "http://h:1", None);
    assert_eq!(response.status, 404);
    assert_eq!(header(&response.headers, "Content-Type"), Some("text/html"));
    assert_eq!(response.body, b"<h1>404 Video Not Found</h1>".to_vec());
}

#[test]
fn respond_renders_the_index() {
    let videos = two_videos();
    let response = respond(router("GET", "/", &videos), &videos, "http://h:1", None);
    assert_eq!(response.status, 200);
    assert_eq!(header(&response.headers, "Content-Type"), Some("text/html; charset=utf-8"));
    let body = String::from_utf8(response.body).unwrap();
    assert_eq!(body, streamshit::generate_video_list_html(&videos, "http://h:1"));
    assert!(body.contains("http://h:1/1.mkv"));

    let empty = respond(Route::Index, &[], "http://h:1", None);
    assert_eq!(empty.status, 200);
    let body = String::from_utf8(empty.body).unwrap();
    assert!(body.contains("No video files found"));
    assert!(!body.contains("<li"));
}

#[test]
fn respond_to_unknown_is_the_error_page() {
    let videos = two_videos();
    let response = respond(router("GET", "/3.mp4", &videos), &videos, "http://h:1", None);
    assert_eq!(response.status, 404);
    assert_eq!(response.headers, vec![("Content-Type".to_string(), "text/html".to_string())]);
    assert_eq!(response.body, b"<h1>404 Not Found</h1>".to_vec());
}

#[test]
fn route_can_be_copied_and_compared() {
    let route = Route::Video(3);
    let copy = route;
    assert_eq!(route, copy);
    assert_ne!(route, Route::Video(4));
    assert_ne!(Route::Index, Route::NotFound);
}
