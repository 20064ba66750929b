use streamshit::html::{NO_VIDEOS, PAGE_HEAD};
use streamshit::{generate_video_list_html, VideoEntry};

const HEAD: &str = r#"<!DOCTYPE html>
<html>
<head>
    <title>Streamshit</title>
    <style>
        body { font-family: Arial, sans-serif; margin: 40px; }
        h1 { color: #333; }
        .server-info { 
            background-color: #e7f3ff; 
            padding: 15px; 
            border-radius: 5px; 
            margin-bottom: 20px; 
        }
        .video-list { list-style-type: none; padding: 0; }
        .video-item { 
            margin: 10px 0; 
            padding: 15px; 
            background-color: #f5f5f5; 
            border-radius: 5px; 
        }
        .video-name { 
            font-weight: bold; 
            margin-bottom: 5px; 
        }
        .video-url { 
            font-size: 0.9em; 
            color: #666; 
            word-break: break-all; 
        }
        .video-item a { 
            text-decoration: none; 
            color: #007bff; 
        }
        .video-item a:hover { text-decoration: underline; }
    </style>
</head>
<body>
    <h1>Streamshit</h1>
"#;

fn entry(path: &str, alias: &str) -> VideoEntry {
    VideoEntry { path: path.to_string(), alias: alias.to_string() }
}

fn expected_page(videos: &[(&str, &str)], server_url: &str) -> String {
    let mut html = String::from(HEAD);
    html.push_str(&format!(
        "<div class=\"server-info\"><strong>Server URL:</strong> {}</div>",
        server_url
    ));
    if videos.is_empty() {
        html.push_str("<p>No video files found in the directory.</p>");
    } else {
        html.push_str("<ul class=\"video-list\">");
        for (name, alias) in videos {
            let full_url = format!("{}/{}", server_url, alias);
            html.push_str(&format!(
                r#"<li class="video-item">
                            <div class="video-name">{}</div>
                            <div class="video-url"><a href="{}" target="_blank">{}</a></div>
                        </li>"#,
                name, full_url, full_url
            ));
        }
        html.push_str("</ul>");
    }
    html.push_str("</body></html>");
    html
}

#[test]
fn page_head_is_the_document_head() {
    assert_eq!(PAGE_HEAD, HEAD);
    assert!(PAGE_HEAD.starts_with("<!DOCTYPE html>\n<html>\n<head>\n    <title>Streamshit</title>"));
    assert!(PAGE_HEAD.ends_with("<body>\n    <h1>Streamshit</h1>\n"));
    assert_eq!(PAGE_HEAD.len(), 989);
}

#[test]
fn empty_catalog_page_says_no_videos() {
    let html = generate_video_list_html(&[], "http://192.168.1.5:6969");
    assert!(html.contains("No video files found"));
    assert!(html.contains(NO_VIDEOS));
    assert!(!html.contains("<li"));
    assert!(!html.contains("<ul"));
    assert_eq!(html, expected_page(&[], "http://192.168.1.5:6969"));
}

#[test]
fn empty_catalog_page_is_exact() {
    let html = generate_video_list_html(&[], "http://localhost:6969");
    let expected = format!(
        "{}<div class=\"server-info\"><strong>Server URL:</strong> http://localhost:6969</div><p>No video files found in the directory.</p></body></html>",
        HEAD
    );
    assert_eq!(html, expected);
}

#[test]
fn page_shows_the_server_url() {
    let html = generate_video_list_html(&[], "http://10.0.0.7:8080");
    assert!(html.contains(
        "<div class=\"server-info\"><strong>Server URL:</strong> http://10.0.0.7:8080</div>"
    ));
}

#[test]
fn page_lists_each_video_with_name_and_url() {
    let videos = vec![entry("videos/a.mkv", "1.mkv"), entry("videos/b.mp4", "2.mp4")];
    let html = generate_video_list_html(&videos, "http://192.168.1.5:6969");
    assert_eq!(
        html,
        expected_page(&[("a.mkv", "1.mkv"), ("b.mp4", "2.mp4")], "http://192.168.1.5:6969")
    );
    assert!(!html.contains("No video files found"));
    assert_eq!(html.matches("<li class=\"video-item\">").count(), 2);
    assert!(html.contains("<div class=\"video-name\">a.mkv</div>"));
    assert!(html.contains(
        "<a href=\"http://192.168.1.5:6969/1.mkv\" target=\"_blank\">http://192.168.1.5:6969/1.mkv</a>"
    ));
    assert!(html.contains(
        "<a href=\"http://192.168.1.5:6969/2.mp4\" target=\"_blank\">http://192.168.1.5:6969/2.mp4</a>"
    ));
}

#[test]
fn page_keeps_the_catalog_order() {
    let videos = vec![entry("v/z.mp4", "1.mp4"), entry("v/a.mp4", "2.mp4")];
    let html = generate_video_list_html(&videos, "http://h:1");
    let z = html.find("<div class=\"video-name\">z.mp4</div>").unwrap();
    let a = html.find("<div class=\"video-name\">a.mp4</div>").unwrap();
    assert!(z < a);
}

#[test]
fn page_item_is_exact() {
    let videos = vec![entry("/srv/films/clip.webm", "1.webm")];
    let html = generate_video_list_html(&videos, "http://h:1");
    let item = "<li class=\"video-item\">\n                            <div class=\"video-name\">clip.webm</div>\n                            <div class=\"video-url\"><a href=\"http://h:1/1.webm\" target=\"_blank\">http://h:1/1.webm</a></div>\n                        </li>";
    let expected = format!(
        "{}<div class=\"server-info\"><strong>Server URL:</strong> http://h:1</div><ul class=\"video-list\">{}</ul></body></html>",
        HEAD, item
    );
    assert_eq!(html, expected);
}

#[test]
fn page_shows_names_beyond_ascii() {
    let videos = vec![entry("v/caf\u{e9} \u{1F3AC}.mp4", "1.mp4")];
    let html = generate_video_list_html(&videos, "http://h:1");
    assert!(html.contains("<div class=\"video-name\">caf\u{e9} \u{1F3AC}.mp4</div>"));
}

#[test]
fn page_leaves_out_entries_without_a_file_name() {
    let videos = vec![
        entry("v/a.mp4", "1.mp4"),
        entry("..", "2.x"),
        entry("/", "3.x"),
        entry("", "4.x"),
        entry("v/..", "5.x"),
        entry("v/b.mkv/", "6.mkv"),
    ];
    let html = generate_video_list_html(&videos, "http://h:1");
    assert_eq!(
        html,
        expected_page(&[("a.mp4", "1.mp4"), ("b.mkv", "6.mkv")], "http://h:1")
    );
    assert_eq!(html.matches("<li").count(), 2);
}

#[test]
fn page_of_nameless_entries_has_an_empty_list() {
    let videos = vec![entry("..", "1.x")];
    let html = generate_video_list_html(&videos, "http://h:1");
    let expected = format!(
        "{}<div class=\"server-info\"><strong>Server URL:</strong> http://h:1</div><ul class=\"video-list\"></ul></body></html>",
        HEAD
    );
    assert_eq!(html, expected);
    assert!(!html.contains("No video files found"));
}

#[test]
fn page_takes_an_empty_server_url() {
    let videos = vec![entry("v/a.mp4", "1.mp4")];
    let html = generate_video_list_html(&videos, "");
    assert_eq!(html, expected_page(&[("a.mp4", "1.mp4")], ""));
    assert!(html.contains("<a href=\"/1.mp4\" target=\"_blank\">/1.mp4</a>"));
}
