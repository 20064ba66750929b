//! The router: which response a request gets.

use crate::catalog::{
    is_catalog, lemma_aliases_unique_and_increasing, well_aliased, VideoEntry, VideoEntryView,
};
use crate::html::{NO_VIDEOS, PAGE_HEAD, PAGE_TAIL, SERVER_INFO_CLOSE, SERVER_INFO_OPEN};
use crate::mime::{
    default_mime, lemma_video_extension_is_plain, lemma_video_extensions_have_a_type,
    mime_for_extension, video_extension,
};
use crate::path::{file_name, get_file_name, lemma_file_name_is_a_component};
use crate::response::{
    content_view, index_response, list_videos_handler, not_found, not_found_response,
    serve_video, video_response, HttpResponse, HttpResponseView,
};
use crate::text::{bytes_of, decimal, lemma_decimal, str_eq};
use vstd::prelude::*;
use vstd::string::*;

verus! {

/// Where a request leads.
#[derive(Clone, Copy, Debug, PartialEq, Eq, Structural)]
pub enum Route {
    /// To the index page.
    Index,
    /// To the video at this place of the catalog.
    Video(usize),
    /// Nowhere.
    NotFound,
}

/// The name that a request path asks for: the path without its leading `/`.
pub open spec fn request_name(path: Seq<char>) -> Seq<char> {
    if path.len() > 0 && path[0] == '/' {
        path.skip(1)
    } else {
        path
    }
}

/// Whether a name stands for an entry: it is the entry's alias, or the name
/// of its file where its path has one.
pub open spec fn entry_matches(entry: VideoEntryView, name: Seq<char>) -> bool {
    entry.alias == name || file_name(entry.path) == Some(name)
}

/// Whether `i` is the first place of the catalog whose entry `name` stands for.
pub open spec fn is_first_match(catalog: Seq<VideoEntryView>, name: Seq<char>, i: int) -> bool {
    &&& 0 <= i < catalog.len()
    &&& entry_matches(catalog[i], name)
    &&& forall|k: int| 0 <= k < i ==> !entry_matches(#[trigger] catalog[k], name)
}

/// Whether `name` stands for no entry of the catalog.
pub open spec fn no_match(catalog: Seq<VideoEntryView>, name: Seq<char>) -> bool {
    forall|k: int| 0 <= k < catalog.len() ==> !entry_matches(#[trigger] catalog[k], name)
}

/// The first place of the catalog whose entry `name` stands for.
pub open spec fn first_match(catalog: Seq<VideoEntryView>, name: Seq<char>) -> Option<int>
    decreases catalog.len(),
{
    if catalog.len() == 0 {
        None
    } else {
        match first_match(catalog.drop_last(), name) {
            Some(i) => Some(i),
            None => if entry_matches(catalog.last(), name) {
                Some(catalog.len() - 1)
            } else {
                None
            },
        }
    }
}

/// `first_match` gives the first place that matches, and none just when no
/// place does.
pub proof fn lemma_first_match(catalog: Seq<VideoEntryView>, name: Seq<char>)
    ensures
        match first_match(catalog, name) {
            Some(i) => is_first_match(catalog, name, i),
            None => no_match(catalog, name),
        },
    decreases catalog.len(),
{
    if catalog.len() > 0 {
        let rest = catalog.drop_last();
        lemma_first_match(rest, name);
        match first_match(rest, name) {
            Some(i) => {
                assert(rest[i] == catalog[i]);
                assert forall|k: int| 0 <= k < i implies !entry_matches(
                    #[trigger] catalog[k],
                    name,
                ) by {
                    assert(rest[k] == catalog[k]);
                }
            },
            None => {
                assert forall|k: int| 0 <= k < catalog.len() - 1 implies !entry_matches(
                    #[trigger] catalog[k],
                    name,
                ) by {
                    assert(rest[k] == catalog[k]);
                }
            },
        }
    }
}

/// Where a request leads: `GET /` to the index page; `GET` of any other path
/// to the first video that the path's name stands for, by alias or by file
/// name; everything else nowhere.
pub open spec fn route(method: Seq<char>, path: Seq<char>, catalog: Seq<VideoEntryView>) -> Route {
    if method != "GET"@ {
        Route::NotFound
    } else if path == "/"@ {
        Route::Index
    } else {
        match first_match(catalog, request_name(path)) {
            Some(i) => Route::Video(i as usize),
            None => Route::NotFound,
        }
    }
}

/// The response that a route gets, where reading the video's file, if the
/// route leads to one, gave `content`.
pub open spec fn response_for(
    route: Route,
    catalog: Seq<VideoEntryView>,
    server_url: Seq<char>,
    content: Option<Seq<u8>>,
) -> HttpResponseView {
    match route {
        Route::Index => index_response(catalog, server_url),
        Route::Video(i) => video_response(catalog[i as int].path, content),
        Route::NotFound => not_found_response(),
    }
}

/// `GET /` with an empty catalog is answered with status 200 and the index
/// page, which holds the notice that no videos were found where the list
/// would stand, and no list item.
pub proof fn lemma_empty_catalog_gets_the_notice(server_url: Seq<char>, content: Option<Seq<u8>>)
    ensures
        route("GET"@, "/"@, Seq::empty()) == Route::Index,
        response_for(Route::Index, Seq::empty(), server_url, content).status == 200,
        response_for(Route::Index, Seq::empty(), server_url, content).body == bytes_of(
            PAGE_HEAD@ + SERVER_INFO_OPEN@ + server_url + SERVER_INFO_CLOSE@ + NO_VIDEOS@
                + PAGE_TAIL@,
        ),
{
}

/// A request with any method but `GET` leads nowhere and is answered with
/// status 404, whatever its path and whatever the catalog holds.
pub proof fn lemma_other_methods_are_not_found(
    method: Seq<char>,
    path: Seq<char>,
    catalog: Seq<VideoEntryView>,
    server_url: Seq<char>,
    content: Option<Seq<u8>>,
)
    requires
        method != "GET"@,
    ensures
        route(method, path, catalog) == Route::NotFound,
        response_for(route(method, path, catalog), catalog, server_url, content).status == 404,
{
}

/// `GET /name`, for a name that is not empty and is neither the alias nor
/// the file name of any entry, leads nowhere and is answered with status 404.
pub proof fn lemma_unknown_name_is_not_found(
    name: Seq<char>,
    catalog: Seq<VideoEntryView>,
    server_url: Seq<char>,
    content: Option<Seq<u8>>,
)
    requires
        name.len() > 0,
        no_match(catalog, name),
    ensures
        route("GET"@, "/"@ + name, catalog) == Route::NotFound,
        response_for(route("GET"@, "/"@ + name, catalog), catalog, server_url, content).status
            == 404,
{
    let path = "/"@ + name;
    reveal_strlit("/");
    assert("/"@.len() == 1);
    assert(path[0] == '/');
    assert(request_name(path) =~= name);
    lemma_first_match(catalog, name);
}

/// No entry of a catalog stands behind a name that holds a `/`, or behind
/// the name `..`.
pub proof fn lemma_catalog_names_are_plain(catalog: Seq<VideoEntryView>, name: Seq<char>)
    requires
        is_catalog(catalog),
        name.contains('/') || name == seq!['.', '.'],
    ensures
        no_match(catalog, name),
{
    assert forall|k: int| 0 <= k < catalog.len() implies !entry_matches(
        #[trigger] catalog[k],
        name,
    ) by {
        assert(well_aliased(catalog, k));
        let entry = catalog[k];
        let ext = video_extension(entry.path).unwrap();
        lemma_file_name_is_a_component(entry.path);
        lemma_decimal((k + 1) as nat);
        lemma_video_extension_is_plain(ext);
        let rank = decimal((k + 1) as nat);
        assert(entry.alias[0] == rank[0]);
        if entry.alias.contains('/') {
            let i = choose|i: int| 0 <= i < entry.alias.len() && entry.alias[i] == '/';
            if i < rank.len() {
                assert(entry.alias[i] == rank[i]);
            } else if i > rank.len() {
                assert(entry.alias[i] == ext[i - rank.len() - 1]);
            }
        }
    }
}

/// A request path with a traversal in it, that is one whose name holds a `/`
/// or is `..`, leads to no file: against a catalog it is answered with
/// status 404.
pub proof fn lemma_traversal_is_not_found(
    path: Seq<char>,
    catalog: Seq<VideoEntryView>,
    server_url: Seq<char>,
    content: Option<Seq<u8>>,
)
    requires
        is_catalog(catalog),
        request_name(path).contains('/') || request_name(path) == seq!['.', '.'],
    ensures
        route("GET"@, path, catalog) == Route::NotFound,
        response_for(route("GET"@, path, catalog), catalog, server_url, content).status == 404,
{
    reveal_strlit("/");
    assert("/"@.len() == 1);
    if path == "/"@ {
        assert(request_name(path).len() == 0);
    }
    lemma_catalog_names_are_plain(catalog, request_name(path));
    lemma_first_match(catalog, request_name(path));
}

/// `GET /alias`, for the alias of an entry of a catalog, leads to that entry
/// unless an earlier entry's file bears the alias as its name. The response
/// then has status 200, the media type that the table gives for the entry's
/// extension, and as its body the bytes that reading the file gave.
pub proof fn lemma_alias_serves_its_video(
    catalog: Seq<VideoEntryView>,
    i: int,
    server_url: Seq<char>,
    content: Seq<u8>,
)
    requires
        is_catalog(catalog),
        catalog.len() <= usize::MAX,
        0 <= i < catalog.len(),
        forall|k: int|
            0 <= k < i ==> file_name(#[trigger] catalog[k].path) != Some(catalog[i].alias),
    ensures
        route("GET"@, "/"@ + catalog[i].alias, catalog) == Route::Video(i as usize),
        response_for(Route::Video(i as usize), catalog, server_url, Some(content)).status == 200,
        response_for(Route::Video(i as usize), catalog, server_url, Some(content)).headers[0] == (
            "Content-Type"@,
            mime_for_extension(video_extension(catalog[i].path).unwrap()),
        ),
        response_for(Route::Video(i as usize), catalog, server_url, Some(content)).body == content,
        mime_for_extension(video_extension(catalog[i].path).unwrap()) != default_mime(),
{
    lemma_video_extensions_have_a_type(video_extension(catalog[i].path).unwrap());
    let alias = catalog[i].alias;
    let path = "/"@ + alias;
    reveal_strlit("/");
    assert("/"@.len() == 1);
    assert(well_aliased(catalog, i));
    lemma_decimal((i + 1) as nat);
    assert(alias.len() > 0);
    assert(path[0] == '/');
    assert(request_name(path) =~= alias);
    assert forall|k: int| 0 <= k < i implies !entry_matches(#[trigger] catalog[k], alias) by {
        lemma_aliases_unique_and_increasing(catalog, k, i);
    }
    assert(is_first_match(catalog, alias, i));
    lemma_first_match(catalog, alias);
}

/// Whether the path `path` has the file name `name`.
fn has_file_name(path: &str, name: &str) -> (r: bool)
    ensures
        r == (file_name(path@) == Some(name@)),
{
    match get_file_name(path) {
        Some(found) => str_eq(found, name),
        None => false,
    }
}

/// The first video of the catalog that `name` stands for, by alias or by
/// file name.
pub fn find_video(videos: &[VideoEntry], name: &str) -> (found: Option<usize>)
    ensures
        match found {
            Some(i) => is_first_match(videos.deep_view(), name@, i as int),
            None => no_match(videos.deep_view(), name@),
        },
        found == match first_match(videos.deep_view(), name@) {
            Some(i) => Some(i as usize),
            None => None,
        },
{
    let ghost catalog = videos.deep_view();
    let mut i: usize = 0;
    while i < videos.len()
        invariant
            i <= videos.len(),
            catalog == videos.deep_view(),
            forall|k: int| 0 <= k < i ==> !entry_matches(#[trigger] catalog[k], name@),
        decreases videos.len() - i,
    {
        let video = &videos[i];
        assert(catalog[i as int] == video@);
        if str_eq(video.alias.as_str(), name) || has_file_name(video.path.as_str(), name) {
            proof {
                lemma_first_match(catalog, name@);
            }
            return Some(i);
        }
        i = i + 1;
    }
    proof {
        lemma_first_match(catalog, name@);
    }
    None
}

/// The name that the request path `path` asks for.
pub fn get_request_name<'a>(path: &'a str) -> (name: &'a str)
    ensures
        name@ == request_name(path@),
{
    let n = path.unicode_len();
    if n > 0 && path.get_char(0) == '/' {
        let name = path.substring_char(1, n);
        assert(name@ =~= path@.skip(1));
        name
    } else {
        path
    }
}

/// Decides where the request with method `method` for `path` leads.
pub fn router(method: &str, path: &str, videos: &[VideoEntry]) -> (r: Route)
    ensures
        r == route(method@, path@, videos.deep_view()),
        r matches Route::Video(i) ==> i < videos.len(),
        method@ != "GET"@ ==> r == Route::NotFound,
{
    if !str_eq(method, "GET") {
        Route::NotFound
    } else if str_eq(path, "/") {
        Route::Index
    } else {
        match find_video(videos, get_request_name(path)) {
            Some(i) => Route::Video(i),
            None => Route::NotFound,
        }
    }
}

/// Builds the response for a route. `content` is what reading the file of
/// the video gave where the route leads to one (`None` where it could not be
/// read); for the other routes it is not looked at.
pub fn respond(
    route: Route,
    videos: &[VideoEntry],
    server_url: &str,
    content: Option<Vec<u8>>,
) -> (response: HttpResponse)
    requires
        route matches Route::Video(i) ==> i < videos.len(),
    ensures
        response@ == response_for(route, videos.deep_view(), server_url@, content_view(content)),
{
    match route {
        Route::Index => list_videos_handler(videos, server_url),
        Route::Video(i) => {
            assert(videos.deep_view()[i as int] == videos[i as int]@);
            serve_video(videos[i].path.as_str(), content)
        },
        Route::NotFound => not_found(),
    }
}

} // verus!
