//! A small server of the video files of one directory: the catalog of the
//! files, the index page that lists them, and the router that decides what a
//! request gets. The library computes on plain values; reading the
//! directory and the files, and speaking HTTP, is left to its caller.

pub mod catalog;
pub mod config;
pub mod html;
pub mod mime;
pub mod path;
pub mod response;
pub mod router;
pub mod text;

pub use catalog::{catalog_of, get_video_list, video_files, DirEntry, VideoEntry};
pub use config::ServerConfig;
pub use html::generate_video_list_html;
pub use mime::get_mime_type;
pub use response::{list_videos_handler, not_found, serve_video, HttpResponse};
pub use router::{find_video, respond, router, Route};
