//! The index page: the HTML document that lists the catalog.

use crate::catalog::{VideoEntry, VideoEntryView};
use crate::path::{file_name, get_file_name};
use vstd::prelude::*;
use vstd::string::*;

verus! {

/// The document up to the line that names the server.
pub const PAGE_HEAD: &'static str = r#"<!DOCTYPE html>
<html>
<head>
    <title>Streamshit</title>
    <style>
        body { font-family: Arial, sans-serif; margin: 40px; }
        h1 { color: #333; }
        .server-info { 
            background-color: #e7f3ff; 
            padding: 15px; 
            border-radius: 5px; 
            margin-bottom: 20px; 
        }
        .video-list { list-style-type: none; padding: 0; }
        .video-item { 
            margin: 10px 0; 
            padding: 15px; 
            background-color: #f5f5f5; 
            border-radius: 5px; 
        }
        .video-name { 
            font-weight: bold; 
            margin-bottom: 5px; 
        }
        .video-url { 
            font-size: 0.9em; 
            color: #666; 
            word-break: break-all; 
        }
        .video-item a { 
            text-decoration: none; 
            color: #007bff; 
        }
        .video-item a:hover { text-decoration: underline; }
    </style>
</head>
<body>
    <h1>Streamshit</h1>
"#;

/// What stands before the server's address on the page.
pub const SERVER_INFO_OPEN: &'static str = "<div class=\"server-info\"><strong>Server URL:</strong> ";

/// What stands behind the server's address.
pub const SERVER_INFO_CLOSE: &'static str = "</div>";

/// What the page shows in place of a list when the catalog is empty.
pub const NO_VIDEOS: &'static str = "<p>No video files found in the directory.</p>";

/// The tag that opens the list of videos.
pub const LIST_OPEN: &'static str = "<ul class=\"video-list\">";

/// The tag that closes the list.
pub const LIST_CLOSE: &'static str = "</ul>";

/// A list item up to the file's name.
pub const ITEM_OPEN: &'static str = "<li class=\"video-item\">\n                            <div class=\"video-name\">";

/// A list item between the file's name and the target of the link.
pub const ITEM_NAME_CLOSE: &'static str = "</div>\n                            <div class=\"video-url\"><a href=\"";

/// A list item between the target of the link and its text.
pub const ITEM_LINK_OPEN: &'static str = "\" target=\"_blank\">";

/// A list item behind the text of the link.
pub const ITEM_CLOSE: &'static str = "</a></div>\n                        </li>";

/// The end of the document.
pub const PAGE_TAIL: &'static str = "</body></html>";

/// The address under which a video is offered: the server's address, `/`
/// and the alias.
pub open spec fn video_url(server_url: Seq<char>, alias: Seq<char>) -> Seq<char> {
    server_url + "/"@ + alias
}

/// The list item of a video: the name of its file, and a link to its
/// address that shows the address.
pub open spec fn list_item(name: Seq<char>, url: Seq<char>) -> Seq<char> {
    ITEM_OPEN@ + name + ITEM_NAME_CLOSE@ + url + ITEM_LINK_OPEN@ + url + ITEM_CLOSE@
}

/// What the list shows of one entry: its list item, or nothing where its
/// path has no file name.
pub open spec fn entry_item(entry: VideoEntryView, server_url: Seq<char>) -> Seq<char> {
    match file_name(entry.path) {
        Some(name) => list_item(name, video_url(server_url, entry.alias)),
        None => Seq::empty(),
    }
}

/// The list items of the videos, one after the other in the catalog's order.
pub open spec fn list_items(catalog: Seq<VideoEntryView>, server_url: Seq<char>) -> Seq<char>
    decreases catalog.len(),
{
    if catalog.len() == 0 {
        Seq::empty()
    } else {
        list_items(catalog.drop_last(), server_url) + entry_item(catalog.last(), server_url)
    }
}

/// What the page shows of the catalog: the list of its videos, or the
/// notice that there are none.
pub open spec fn listing(catalog: Seq<VideoEntryView>, server_url: Seq<char>) -> Seq<char> {
    if catalog.len() == 0 {
        NO_VIDEOS@
    } else {
        LIST_OPEN@ + list_items(catalog, server_url) + LIST_CLOSE@
    }
}

/// The index page for a catalog, as served under the address `server_url`.
pub open spec fn index_page(catalog: Seq<VideoEntryView>, server_url: Seq<char>) -> Seq<char> {
    PAGE_HEAD@ + SERVER_INFO_OPEN@ + server_url + SERVER_INFO_CLOSE@ + listing(catalog, server_url)
        + PAGE_TAIL@
}

/// Renders the index page: the server's address and, for each video of the
/// catalog whose path has a file name, that name and the link to the video;
/// for an empty catalog the notice that no videos were found.
pub fn generate_video_list_html(videos: &[VideoEntry], server_url: &str) -> (html: String)
    ensures
        html@ == index_page(videos.deep_view(), server_url@),
        videos.len() == 0 ==> html@ == PAGE_HEAD@ + SERVER_INFO_OPEN@ + server_url@
            + SERVER_INFO_CLOSE@ + NO_VIDEOS@ + PAGE_TAIL@,
{
    let ghost catalog = videos.deep_view();
    let mut html = String::from_str(PAGE_HEAD);
    html.append(SERVER_INFO_OPEN);
    html.append(server_url);
    html.append(SERVER_INFO_CLOSE);
    let ghost prefix = html@;
    if videos.len() == 0 {
        html.append(NO_VIDEOS);
    } else {
        html.append(LIST_OPEN);
        let mut i: usize = 0;
        proof {
            assert(catalog.take(0) =~= Seq::empty());
            assert(html@ =~= prefix + LIST_OPEN@ + list_items(catalog.take(0), server_url@));
        }
        while i < videos.len()
            invariant
                i <= videos.len(),
                catalog == videos.deep_view(),
                html@ == prefix + LIST_OPEN@ + list_items(catalog.take(i as int), server_url@),
            decreases videos.len() - i,
        {
            let ghost so_far = html@;
            let video = &videos[i];
            match get_file_name(video.path.as_str()) {
                Some(name) => {
                    let mut url = String::from_str(server_url);
                    url.append("/");
                    url.append(video.alias.as_str());
                    html.append(ITEM_OPEN);
                    html.append(name);
                    html.append(ITEM_NAME_CLOSE);
                    html.append(url.as_str());
                    html.append(ITEM_LINK_OPEN);
                    html.append(url.as_str());
                    html.append(ITEM_CLOSE);
                },
                None => {},
            }
            proof {
                let upto = catalog.take(i + 1);
                assert(upto.drop_last() =~= catalog.take(i as int));
                assert(upto.last() == video@);
                assert(html@ =~= so_far + entry_item(video@, server_url@));
                assert(html@ =~= prefix + LIST_OPEN@ + list_items(upto, server_url@));
            }
            i = i + 1;
        }
        html.append(LIST_CLOSE);
        proof {
            assert(catalog.take(i as int) =~= catalog);
            assert(html@ =~= prefix + listing(catalog, server_url@));
        }
    }
    html.append(PAGE_TAIL);
    html
}

} // verus!
