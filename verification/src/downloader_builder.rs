//! How a download is set up.

use headers::HeaderMap;
use vstd::prelude::*;

use crate::downloader::{ExtendedHttpFileDownloader, HttpFileDownloader};
use crate::extensions::DownloadExtensionBuilder;
use crate::header_fields;
use crate::header_fields::{ETag, HttpRequest, HttpVersion};
use crate::paths;

verus! {

/// What to do with a response that points elsewhere.
#[derive(Clone, Copy, Debug, Eq, PartialEq, Structural)]
pub enum HttpRedirectionHandle {
    /// Nothing: it is a failure.
    Invalid,
    /// Request the other place, unless that was done this often already.
    RequestNewLocation { max_times: usize },
}

/// How a download is done.
#[derive(Debug)]
pub struct HttpDownloadConfig {
    /// Whether the file gets its length before anything is written, so that a lack of space
    /// shows at once.
    pub set_len_in_advance: bool,
    pub download_connection_count: u8,
    pub chunk_size: usize,
    pub save_dir: String,
    pub file_name: String,
    pub create_dir: bool,
    pub url: String,
    pub etag: Option<ETag>,
    pub request_retry_count: u8,
    pub header_map: HeaderMap,
    /// How many nanoseconds lie between two reports of the number of bytes that have come.
    pub downloaded_len_send_interval: Option<u128>,
    /// How many nanoseconds lie between two reports of the chunks.
    pub chunks_send_interval: Option<u128>,
    pub handle_zero_content: bool,
    pub strict_check_accept_ranges: bool,
    pub handle_redirection: HttpRedirectionHandle,
}

/// The fields that every request has.
pub open spec fn common_fields() -> Map<Seq<char>, Seq<Seq<u8>>> {
    header_fields::no_fields().insert(
        "accept"@,
        seq![header_fields::ascii_bytes("*/*"@)],
    ).insert("connection"@, seq![header_fields::ascii_bytes("keep-alive"@)])
}

/// The fields of a request: those that every request has, and for each name that has values among
/// `own` the last of them in its place.
pub open spec fn request_fields(
    own: Map<Seq<char>, Seq<Seq<u8>>>,
) -> Map<Seq<char>, Seq<Seq<u8>>> {
    Map::new(
        |name: Seq<char>|
            common_fields().contains_key(name) || own.contains_key(name) && own[name].len() > 0,
        |name: Seq<char>|
            if own.contains_key(name) && own[name].len() > 0 {
                seq![own[name].last()]
            } else {
                common_fields()[name]
            },
    )
}

/// Whether a request has room for these fields, and for one more.
pub open spec fn fits_in_request(own: Map<Seq<char>, Seq<Seq<u8>>>) -> bool {
    own.dom().finite() && own.dom().len() + 2 <= header_fields::FIELD_LIMIT
}

/// The values that stand beside each name in `list`.
spec fn listed(list: Seq<(String, Vec<u8>)>) -> Map<Seq<char>, Seq<Seq<u8>>> {
    Map::new(
        |name: Seq<char>| header_fields::listed_values(list, name).len() > 0,
        |name: Seq<char>| header_fields::listed_values(list, name),
    )
}

proof fn lemma_listed_push(list: Seq<(String, Vec<u8>)>, name: String, value: Vec<u8>)
    ensures
        request_fields(listed(list.push((name, value)))) == request_fields(listed(list)).insert(
            name@,
            seq![value@],
        ),
{
    let next = list.push((name, value));
    assert forall|other: Seq<char>|
        #![trigger header_fields::listed_values(next, other)]
        header_fields::listed_values(next, other) == (if other == name@ {
            header_fields::listed_values(list, other).push(value@)
        } else {
            header_fields::listed_values(list, other)
        }) by {
        reveal(Seq::filter);
        assert(next.drop_last() =~= list);
        assert(header_fields::listed_values(next, other) =~= (if other == name@ {
            header_fields::listed_values(list, other).push(value@)
        } else {
            header_fields::listed_values(list, other)
        }));
    }
    let before = request_fields(listed(list));
    let after = request_fields(listed(next));
    assert forall|other: Seq<char>| #[trigger] after.contains_key(other) == before.insert(
        name@,
        seq![value@],
    ).contains_key(other) by {
        let values = header_fields::listed_values(next, other);
    }
    assert forall|other: Seq<char>| #[trigger] after.contains_key(other) implies after[other]
        == before.insert(name@, seq![value@])[other] by {
        let values = header_fields::listed_values(next, other);
        assert(other == name@ ==> values.last() == value@);
    }
    assert(after =~= before.insert(name@, seq![value@]));
}

/// What is listed of a map gives the same request as the map.
proof fn lemma_listed_all(list: Seq<(String, Vec<u8>)>, map: HeaderMap)
    requires
        forall|name: Seq<char>| #[trigger]
            header_fields::listed_values(list, name) == header_fields::field_values(map, name),
    ensures
        request_fields(listed(list)) == request_fields(header_fields::fields(map)),
{
    let own = header_fields::fields(map);
    assert forall|name: Seq<char>| #[trigger] listed(list).contains_key(name) <==> (
    own.contains_key(name) && own[name].len() > 0) by {
        assert(header_fields::listed_values(list, name) == header_fields::field_values(map, name));
    }
    assert(request_fields(listed(list)) =~= request_fields(own));
}

/// A request has no more names than its own and two more.
proof fn lemma_request_has_room(own: Map<Seq<char>, Seq<Seq<u8>>>)
    requires
        fits_in_request(own),
    ensures
        header_fields::has_room(request_fields(own).dom()),
{
    let common = common_fields().dom();
    let names = request_fields(own).dom();
    assert(common.finite() && common.len() <= 2);
    let all = common.union(own.dom());
    vstd::set_lib::lemma_set_union_finite_iff(common, own.dom());
    vstd::set_lib::lemma_len_union(common, own.dom());
    assert(names.subset_of(all));
    vstd::set_lib::lemma_len_subset(names, all);
}

/// What is listed of a prefix has no more names than the whole.
proof fn lemma_prefix_has_room(list: Seq<(String, Vec<u8>)>, k: int, map: HeaderMap)
    requires
        0 <= k <= list.len(),
        forall|name: Seq<char>| #[trigger]
            header_fields::listed_values(list, name) == header_fields::field_values(map, name),
        fits_in_request(header_fields::fields(map)),
    ensures
        header_fields::has_room(request_fields(listed(list.take(k))).dom()),
{
    let own = header_fields::fields(map);
    let part = listed(list.take(k));
    assert forall|name: Seq<char>| #[trigger] part.contains_key(name) implies own.contains_key(
        name,
    ) by {
        let p = |p: (String, Vec<u8>)| p.0@ == name;
        assert(list =~= list.take(k) + list.skip(k));
        Seq::filter_distributes_over_add(list.take(k), list.skip(k), p);
        assert(header_fields::listed_values(list, name) == header_fields::field_values(map, name));
        assert(header_fields::listed_values(list, name).len() == list.filter(p).len());
        assert(header_fields::listed_values(list.take(k), name).len() == list.take(k).filter(
            p,
        ).len());
    }
    assert(part.dom().subset_of(own.dom()));
    vstd::set_lib::lemma_len_subset(part.dom(), own.dom());
    lemma_request_has_room(part);
}

impl HttpDownloadConfig {
    /// Whether there is at least one connection, and chunks have a size.
    pub open spec fn valid(self) -> bool {
        self.download_connection_count > 0 && self.chunk_size > 0
    }

    /// Whether `path` may be that of the file.
    ///
    /// Said only where the name of the file is plain, and the directory is not to be taken
    /// literally: the separator is that of the platform.
    pub open spec fn is_file_path(self, path: Seq<char>) -> bool {
        paths::can_join(self.save_dir@, self.file_name@) ==> paths::is_joined(
            self.save_dir@,
            self.file_name@,
            path,
        )
    }

    /// Where the file is saved.
    ///
    /// The separator is that of the platform, and other names and directories are joined as the
    /// platform does it.
    pub fn file_path(&self) -> (r: String)
        ensures
            self.is_file_path(r@),
    {
        paths::join(self.save_dir.as_str(), self.file_name.as_str())
    }

    /// Where a request goes: elsewhere if a response said so, seen from the URL that was set up. It
    /// goes nowhere if what the response said is no URL even so.
    pub open spec fn request_url(self, location: Option<&str>) -> Option<Seq<char>> {
        match location {
            Some(location) => url_joined(self.url@, location@),
            None => Some(self.url@),
        }
    }

    /// Whether `request` is one to `url` for the file: it gets what is there, by HTTP 1.1, and is
    /// never given up for the time that it takes.
    pub open spec fn is_request_to(self, url: Seq<char>, request: HttpRequest) -> bool {
        &&& request.method@ == "GET"@
        &&& request.url@ == url
        &&& request.version == HttpVersion::Http11
        &&& header_fields::fields(request.headers) == request_fields(
            header_fields::fields(self.header_map),
        )
        &&& request.timeout is None
    }

    /// Whether `request` is one for the file.
    pub open spec fn is_request(self, location: Option<&str>, request: HttpRequest) -> bool {
        self.request_url(location) matches Some(url) && self.is_request_to(url, request)
    }

    /// A request for the file, if there is somewhere for it to go.
    pub fn create_http_request(&self, location: Option<&str>) -> (r: Option<HttpRequest>)
        requires
            fits_in_request(header_fields::fields(self.header_map)),
        ensures
            match r {
                Some(request) => {
                    &&& self.is_request(location, request)
                    &&& header_fields::has_room(header_fields::fields(request.headers).dom())
                },
                None => self.request_url(location) is None,
            },
    {
        let url = match location {
            Some(location) => join_url(self.url.as_str(), location),
            None => Some(self.url.clone()),
        };
        match url {
            Some(url) => Some(self.create_request_to(url)),
            None => None,
        }
    }

    /// A request to `url` for the file.
    pub fn create_request_to(&self, url: String) -> (r: HttpRequest)
        requires
            fits_in_request(header_fields::fields(self.header_map)),
        ensures
            self.is_request_to(url@, r),
            header_fields::has_room(header_fields::fields(r.headers).dom()),
    {
        let mut headers = header_fields::empty_fields();
        proof {
            reveal_strlit("accept");
            reveal_strlit("*/*");
            header_fields::lemma_visible_text_bytes("*/*"@);
            assert(header_fields::no_fields().dom() =~= Set::empty());
        }
        header_fields::insert_field(&mut headers, "accept", "*/*".as_bytes());
        header_fields::insert_keep_alive(&mut headers);
        let list = header_fields::list_fields(&self.header_map);
        assert(request_fields(listed(list@.take(0))) =~= common_fields()) by {
            reveal(Seq::filter);
        }
        for k in 0..list.len()
            invariant
                fits_in_request(header_fields::fields(self.header_map)),
                forall|name: Seq<char>| #[trigger]
                    header_fields::listed_values(list@, name) == header_fields::field_values(
                        self.header_map,
                        name,
                    ),
                forall|k: int|
                    0 <= k < list@.len() ==> header_fields::is_field_name((#[trigger] list@[k]).0@)
                        && header_fields::is_field_value(list@[k].1@),
                header_fields::fields(headers) == request_fields(listed(list@.take(k as int))),
        {
            let (header_name, header_value) = &list[k];
            assert(header_fields::is_field_name(list@[k as int].0@));
            proof {
                lemma_prefix_has_room(list@, k as int, self.header_map);
                lemma_listed_push(list@.take(k as int), *header_name, *header_value);
                assert(list@.take(k + 1) =~= list@.take(k as int).push(
                    (*header_name, *header_value),
                ));
            }
            header_fields::insert_field(
                &mut headers,
                header_name.as_str(),
                header_value.as_slice(),
            );
        }
        proof {
            assert(list@.take(list@.len() as int) =~= list@);
            lemma_listed_all(list@, self.header_map);
            lemma_request_has_room(header_fields::fields(self.header_map));
        }
        HttpRequest {
            method: "GET".to_owned(),
            url,
            version: HttpVersion::Http11,
            headers,
            timeout: None,
        }
    }

    /// Why there is no request for the file, if there is none: there is no room for its fields, or
    /// else nowhere for it to go.
    pub open spec fn request_refusal(self, location: Option<&str>) -> Option<RequestError> {
        if !fits_in_request(header_fields::fields(self.header_map)) {
            Some(RequestError::TooManyFields)
        } else if self.request_url(location) is None {
            Some(RequestError::InvalidLocation)
        } else {
            None
        }
    }

    /// A request for the file, or why there is none.
    pub fn try_create_http_request(&self, location: Option<&str>) -> (r: Result<
        HttpRequest,
        RequestError,
    >)
        ensures
            match r {
                Ok(request) => {
                    &&& self.request_refusal(location) is None
                    &&& self.is_request(location, request)
                    &&& header_fields::has_room(header_fields::fields(request.headers).dom())
                },
                Err(err) => self.request_refusal(location) == Some(err),
            },
    {
        if header_fields::count_names(&self.header_map) > header_fields::FIELD_LIMIT - 2 {
            return Err(RequestError::TooManyFields);
        }
        match self.create_http_request(location) {
            Some(request) => Ok(request),
            None => Err(RequestError::InvalidLocation),
        }
    }

    /// A request for the file as `make` makes it of its plain values, changed by `configure` if
    /// there is one, or why there is none.
    pub fn create_configured_request<R, M: Fn(HttpRequest) -> R, G: Fn(R) -> R>(
        &self,
        location: Option<&str>,
        make: M,
        configure: Option<G>,
    ) -> (r: Result<R, RequestError>)
        requires
            forall|request: HttpRequest| call_requires(make, (request,)),
            forall|request: R|
                configure is Some ==> #[trigger] call_requires(configure->Some_0, (request,)),
        ensures
            match r {
                Ok(request) => {
                    &&& self.request_refusal(location) is None
                    &&& exists|plain: HttpRequest, made: R|
                        {
                            &&& self.is_request(location, plain)
                            &&& #[trigger] call_ensures(make, (plain,), made)
                            &&& match configure {
                                Some(configure) => call_ensures(configure, (made,), request),
                                None => request == made,
                            }
                        }
                },
                Err(err) => self.request_refusal(location) == Some(err),
            },
    {
        let plain = match self.try_create_http_request(location) {
            Ok(plain) => plain,
            Err(err) => return Err(err),
        };
        let ghost asked = plain;
        let made = make(plain);
        assert(call_ensures(make, (asked,), made));
        match configure {
            Some(configure) => Ok(configure(made)),
            None => Ok(made),
        }
    }
}

/// Why there is no request.
#[derive(Clone, Copy, Debug, Eq, PartialEq, Structural)]
pub enum RequestError {
    /// There is no room for its fields.
    TooManyFields,
    /// What a response said of where the file is is no URL.
    InvalidLocation,
}

/// A field that was asked for comes in place of the one that every request has, with the last of
/// its values; all other fields that every request has stay.
pub proof fn law_own_fields_come_first(own: Map<Seq<char>, Seq<Seq<u8>>>, name: Seq<char>)
    ensures
        own.contains_key(name) && own[name].len() > 0 ==> request_fields(own).contains_key(name)
            && request_fields(own)[name] == seq![own[name].last()],
        !own.contains_key(name) && common_fields().contains_key(name) ==> request_fields(
            own,
        ).contains_key(name) && request_fields(own)[name] == common_fields()[name],
        !own.contains_key(name) && !common_fields().contains_key(name) ==> !request_fields(
            own,
        ).contains_key(name),
{
}

/// The parts of the path of a URL, by `Url::parse` and `Url::path_segments`.
pub uninterp spec fn url_path_segments(url: Seq<char>) -> Option<Seq<Seq<char>>>;

/// The domain of a URL, by `Url::parse` and `Url::domain`.
pub uninterp spec fn url_domain(url: Seq<char>) -> Option<Seq<char>>;

/// What `location` is seen from `url`, by `Url::parse` and `Url::join`.
pub uninterp spec fn url_joined(url: Seq<char>, location: Seq<char>) -> Option<Seq<char>>;

/// What `location` is seen from `url`, by `Url::join`. There is none if either is no URL.
#[verifier::external_body]
fn join_url(url: &str, location: &str) -> (r: Option<String>)
    ensures
        text_of(r) == url_joined(url@, location@),
{
    url::Url::parse(url).ok()?.join(location).ok().map(|joined| joined.to_string())
}

/// The texts in `list`, if there is one.
pub open spec fn texts_of(list: Option<Vec<String>>) -> Option<Seq<Seq<char>>> {
    match list {
        Some(list) => Some(list@.map_values(|text: String| text@)),
        None => None,
    }
}

/// The characters of `text`, if there is one.
pub open spec fn text_of(text: Option<String>) -> Option<Seq<char>> {
    match text {
        Some(text) => Some(text@),
        None => None,
    }
}

/// The parts of the path of a URL, by `Url::path_segments`.
///
/// Where there are parts, there is at least one, which may be empty. There are none of what is
/// no URL.
#[verifier::external_body]
fn path_segments(url: &str) -> (r: Option<Vec<String>>)
    ensures
        texts_of(r) == url_path_segments(url@),
        r matches Some(segments) ==> segments@.len() > 0,
{
    let url = url::Url::parse(url).ok()?;
    url.path_segments().map(|segments| segments.map(|part| part.to_string()).collect())
}

/// The domain of a URL, by `Url::domain`. There is none of what is no URL.
#[verifier::external_body]
fn domain(url: &str) -> (r: Option<String>)
    ensures
        text_of(r) == url_domain(url@),
{
    url::Url::parse(url).ok()?.domain().map(|domain| domain.to_string())
}

/// The name for a file that is found by a URL with these parts and this domain: the last part,
/// or the name of a website's start page if that is empty or the URL has no parts. Were there
/// parts but none of them last, it would be the domain.
pub open spec fn file_name_from(
    segments: Option<Seq<Seq<char>>>,
    domain: Option<Seq<char>>,
) -> Seq<char> {
    match segments {
        Some(segments) => if segments.len() > 0 {
            if segments.last().len() == 0 {
                "index.html"@
            } else {
                segments.last()
            }
        } else {
            match domain {
                Some(domain) => domain,
                None => "index.html"@,
            }
        },
        None => "index.html"@,
    }
}

/// Chooses the name for a file that is found by a URL with these parts and this domain.
pub fn choose_file_name(segments: Option<Vec<String>>, domain: Option<String>) -> (r: String)
    ensures
        r@ == file_name_from(texts_of(segments), text_of(domain)),
        segments matches Some(parts) ==> (parts@.len() > 0 && parts@.last()@.len() > 0 ==> r@
            == parts@.last()@),
{
    let website_default = "index.html";
    match segments {
        Some(segments) => {
            let ghost texts = segments@.map_values(|text: String| text@);
            assert(texts.len() == segments@.len());
            if segments.len() > 0 {
                let last = &segments[segments.len() - 1];
                assert(last@ == texts.last());
                if last.as_str().is_empty() {
                    website_default.to_owned()
                } else {
                    last.clone()
                }
            } else {
                match domain {
                    Some(domain) => domain,
                    None => website_default.to_owned(),
                }
            }
        },
        None => website_default.to_owned(),
    }
}

/// A file is named by the last part of its URL, however many come before it, unless that part is
/// empty.
pub proof fn law_last_part_names_the_file(
    parts: Seq<Seq<char>>,
    last: Seq<char>,
    domain: Option<Seq<char>>,
)
    ensures
        last.len() > 0 ==> file_name_from(Some(parts.push(last)), domain) == last,
        last.len() == 0 ==> file_name_from(Some(parts.push(last)), domain) == "index.html"@,
        file_name_from(None, domain) == "index.html"@,
        domain matches Some(domain) ==> file_name_from(Some(Seq::empty()), Some(domain)) == domain,
        file_name_from(Some(Seq::empty()), None) == "index.html"@,
        "index.html"@ == seq!['i', 'n', 'd', 'e', 'x', '.', 'h', 't', 'm', 'l'],
{
    reveal_strlit("index.html");
    assert("index.html"@ =~= seq!['i', 'n', 'd', 'e', 'x', '.', 'h', 't', 'm', 'l']);
    assert(parts.push(last).last() == last);
}

/// The name that is chosen for a file whose URL has parts is the last of them if that is not empty,
/// and otherwise that of a start page.
pub proof fn law_chosen_name_is_the_last_part(
    parts: Vec<String>,
    domain: Option<String>,
    name: String,
)
    requires
        call_ensures(choose_file_name, (Some(parts), domain), name),
        parts@.len() > 0,
    ensures
        parts@.last()@.len() > 0 ==> name@ == parts@.last()@,
        parts@.last()@.len() == 0 ==> name@ == "index.html"@,
{
    let texts = parts@.map_values(|text: String| text@);
    assert(texts =~= texts.drop_last().push(parts@.last()@));
    law_last_part_names_the_file(texts.drop_last(), parts@.last()@, text_of(domain));
}

/// Something that gives a name to the file that it leads to.
pub trait UrlFileName {
    /// The URL as text.
    spec fn url_text(&self) -> Seq<char>;

    /// The name.
    fn file_name(&self) -> (r: String)
        ensures
            r@ == file_name_from(url_path_segments(self.url_text()), url_domain(self.url_text())),
    ;
}

impl UrlFileName for String {
    open spec fn url_text(&self) -> Seq<char> {
        self@
    }

    fn file_name(&self) -> (r: String) {
        choose_file_name(path_segments(self.as_str()), domain(self.as_str()))
    }
}

/// A chunk size of four mebibytes.
pub const DEFAULT_CHUNK_SIZE: usize = 4_194_304;

/// An interval of 300 milliseconds, in nanoseconds.
pub const DEFAULT_SEND_INTERVAL: u128 = 300_000_000;

/// Sets up a download.
#[derive(Debug)]
pub struct HttpDownloaderBuilder {
    pub chunk_size: usize,
    pub download_connection_count: u8,
    pub url: String,
    pub save_dir: String,
    pub set_len_in_advance: bool,
    pub file_name: Option<String>,
    pub create_dir: bool,
    pub request_retry_count: u8,
    pub etag: Option<ETag>,
    pub header_map: HeaderMap,
    pub downloaded_len_send_interval: Option<u128>,
    pub chunks_send_interval: Option<u128>,
    pub handle_zero_content: bool,
    pub strict_check_accept_ranges: bool,
    pub handle_redirection: HttpRedirectionHandle,
}

impl HttpDownloaderBuilder {
    /// Whether there is at least one connection, and chunks have a size.
    pub open spec fn valid(self) -> bool {
        self.download_connection_count > 0 && self.chunk_size > 0
    }

    /// The download of `url` to `save_dir`: by three connections, in chunks of four mebibytes,
    /// with up to three new tries for a request that failed.
    pub fn new(url: String, save_dir: String) -> (r: Self)
        ensures
            r.url == url,
            r.save_dir == save_dir,
            r.chunk_size == DEFAULT_CHUNK_SIZE,
            r.download_connection_count == 3,
            r.request_retry_count == 3,
            r.file_name is None,
            r.create_dir,
            !r.set_len_in_advance,
            r.etag is None,
            header_fields::fields(r.header_map) == header_fields::no_fields(),
            r.downloaded_len_send_interval == Some(DEFAULT_SEND_INTERVAL),
            r.chunks_send_interval == Some(DEFAULT_SEND_INTERVAL),
            !r.handle_zero_content,
            r.strict_check_accept_ranges,
            r.handle_redirection == HttpRedirectionHandle::Invalid,
            r.valid(),
    {
        Self {
            chunk_size: DEFAULT_CHUNK_SIZE,
            file_name: None,
            create_dir: true,
            request_retry_count: 3,
            download_connection_count: 3,
            url,
            save_dir,
            etag: None,
            header_map: header_fields::empty_fields(),
            downloaded_len_send_interval: Some(DEFAULT_SEND_INTERVAL),
            chunks_send_interval: Some(DEFAULT_SEND_INTERVAL),
            handle_zero_content: false,
            strict_check_accept_ranges: true,
            set_len_in_advance: false,
            handle_redirection: HttpRedirectionHandle::Invalid,
        }
    }

    /// Whether the directory is created if it is not there.
    pub fn create_dir(self, create_dir: bool) -> (r: Self)
        ensures
            r == (HttpDownloaderBuilder { create_dir, ..self }),
    {
        Self { create_dir, ..self }
    }

    /// Whether the file gets its length before anything is written.
    pub fn set_len_in_advance(self, set_len_in_advance: bool) -> (r: Self)
        ensures
            r == (HttpDownloaderBuilder { set_len_in_advance, ..self }),
    {
        Self { set_len_in_advance, ..self }
    }

    /// How many nanoseconds lie between two reports of the number of bytes that have come.
    pub fn downloaded_len_send_interval(self, downloaded_len_send_interval: Option<u128>) -> (r: Self)
        ensures
            r == (HttpDownloaderBuilder { downloaded_len_send_interval, ..self }),
    {
        Self { downloaded_len_send_interval, ..self }
    }

    /// How many nanoseconds lie between two reports of the chunks.
    pub fn chunks_send_interval(self, chunks_send_interval: Option<u128>) -> (r: Self)
        ensures
            r == (HttpDownloaderBuilder { chunks_send_interval, ..self }),
    {
        Self { chunks_send_interval, ..self }
    }

    /// How often a request that failed is tried again.
    pub fn request_retry_count(self, request_retry_count: u8) -> (r: Self)
        ensures
            r == (HttpDownloaderBuilder { request_retry_count, ..self }),
    {
        Self { request_retry_count, ..self }
    }

    /// The fields that requests have besides those that every request has.
    pub fn header_map(self, header_map: HeaderMap) -> (r: Self)
        ensures
            r == (HttpDownloaderBuilder { header_map, ..self }),
    {
        Self { header_map, ..self }
    }

    /// The name of the file, or none to take it from the URL.
    pub fn file_name(self, file_name: Option<String>) -> (r: Self)
        ensures
            r == (HttpDownloaderBuilder { file_name, ..self }),
    {
        Self { file_name, ..self }
    }

    /// The size of the chunks.
    pub fn chunk_size(self, chunk_size: usize) -> (r: Self)
        requires
            chunk_size > 0,
        ensures
            r == (HttpDownloaderBuilder { chunk_size, ..self }),
    {
        Self { chunk_size, ..self }
    }

    /// The entity tag to compare that of the file with.
    pub fn etag(self, etag: Option<ETag>) -> (r: Self)
        ensures
            r == (HttpDownloaderBuilder { etag, ..self }),
    {
        Self { etag, ..self }
    }

    /// Whether an empty file is taken.
    pub fn handle_zero_content(self, handle_zero_content: bool) -> (r: Self)
        ensures
            r == (HttpDownloaderBuilder { handle_zero_content, ..self }),
    {
        Self { handle_zero_content, ..self }
    }

    /// Whether the server must say that it serves ranges for them to be asked for.
    pub fn strict_check_accept_ranges(self, strict_check_accept_ranges: bool) -> (r: Self)
        ensures
            r == (HttpDownloaderBuilder { strict_check_accept_ranges, ..self }),
    {
        Self { strict_check_accept_ranges, ..self }
    }

    /// The number of connections.
    pub fn download_connection_count(self, download_connection_count: u8) -> (r: Self)
        requires
            download_connection_count > 0,
        ensures
            r == (HttpDownloaderBuilder { download_connection_count, ..self }),
    {
        Self { download_connection_count, ..self }
    }

    /// What to do with a response that points elsewhere.
    pub fn handle_redirection(self, handle_redirection: HttpRedirectionHandle) -> (r: Self)
        ensures
            r == (HttpDownloaderBuilder { handle_redirection, ..self }),
    {
        Self { handle_redirection, ..self }
    }

    /// The name that the file gets.
    pub open spec fn chosen_file_name(self) -> Seq<char> {
        match self.file_name {
            Some(file_name) => file_name@,
            None => file_name_from(url_path_segments(self.url@), url_domain(self.url@)),
        }
    }

    /// Whether a downloader is set up like this, and has begun nothing.
    pub open spec fn sets_up(self, downloader: HttpFileDownloader) -> bool {
        &&& downloader.is_fresh()
        &&& downloader.config.set_len_in_advance == self.set_len_in_advance
        &&& downloader.config.download_connection_count == self.download_connection_count
        &&& downloader.config.chunk_size == self.chunk_size
        &&& downloader.config.save_dir == self.save_dir
        &&& downloader.config.file_name@ == self.chosen_file_name()
        &&& downloader.config.create_dir == self.create_dir
        &&& downloader.config.url == self.url
        &&& downloader.config.etag == self.etag
        &&& downloader.config.request_retry_count == self.request_retry_count
        &&& downloader.config.header_map == self.header_map
        &&& downloader.config.downloaded_len_send_interval == self.downloaded_len_send_interval
        &&& downloader.config.chunks_send_interval == self.chunks_send_interval
        &&& downloader.config.handle_zero_content == self.handle_zero_content
        &&& downloader.config.strict_check_accept_ranges == self.strict_check_accept_ranges
        &&& downloader.config.handle_redirection == self.handle_redirection
    }

    /// Sets up the download, and adds to it what `extension_builder` makes.
    pub fn build<DEB: DownloadExtensionBuilder<HttpFileDownloader>>(
        self,
        extension_builder: DEB,
    ) -> (r: (ExtendedHttpFileDownloader<HttpFileDownloader, DEB::Wrapper>, DEB::ExtensionState))
        ensures
            exists|downloader: HttpFileDownloader|
                {
                    &&& #[trigger] self.sets_up(downloader)
                    &&& extension_builder.builds(
                        downloader,
                        r.0.inner,
                        r.0.downloader_wrapper,
                        r.1,
                    )
                },
    {
        let keep = |downloader: HttpFileDownloader| -> (kept: HttpFileDownloader)
            ensures
                kept == downloader,
            { downloader };
        self.build_with(keep, extension_builder)
    }

    /// Sets up the download, lets `make` put another downloader round it, and adds to that one what
    /// `extension_builder` makes.
    pub fn build_with<D, M: FnOnce(HttpFileDownloader) -> D, DEB: DownloadExtensionBuilder<D>>(
        self,
        make: M,
        extension_builder: DEB,
    ) -> (r: (ExtendedHttpFileDownloader<D, DEB::Wrapper>, DEB::ExtensionState))
        requires
            forall|downloader: HttpFileDownloader| call_requires(make, (downloader,)),
        ensures
            exists|bare: HttpFileDownloader, downloader: D|
                {
                    &&& #[trigger] self.sets_up(bare)
                    &&& #[trigger] call_ensures(make, (bare,), downloader)
                    &&& extension_builder.builds(
                        downloader,
                        r.0.inner,
                        r.0.downloader_wrapper,
                        r.1,
                    )
                },
    {
        let file_name = match self.file_name {
            Some(file_name) => file_name,
            None => self.url.file_name(),
        };
        let bare = HttpFileDownloader::new(
            HttpDownloadConfig {
                set_len_in_advance: self.set_len_in_advance,
                download_connection_count: self.download_connection_count,
                chunk_size: self.chunk_size,
                file_name,
                create_dir: self.create_dir,
                url: self.url,
                save_dir: self.save_dir,
                etag: self.etag,
                request_retry_count: self.request_retry_count,
                header_map: self.header_map,
                downloaded_len_send_interval: self.downloaded_len_send_interval,
                chunks_send_interval: self.chunks_send_interval,
                handle_zero_content: self.handle_zero_content,
                strict_check_accept_ranges: self.strict_check_accept_ranges,
                handle_redirection: self.handle_redirection,
            },
        );
        let ghost set_up = bare;
        assert(self.sets_up(set_up));
        let mut downloader = make(bare);
        let ghost made = downloader;
        assert(call_ensures(make, (set_up,), made));
        let (extension, es) = extension_builder.build(&mut downloader);
        let r = (ExtendedHttpFileDownloader::new(downloader, extension), es);
        assert(extension_builder.builds(made, r.0.inner, r.0.downloader_wrapper, r.1));
        r
    }
}

/// A request without fields of its own takes anything and keeps the connection, and says nothing
/// else. Fields of other names add to that, and do not change it.
pub proof fn law_every_request_takes_anything(own: Map<Seq<char>, Seq<Seq<u8>>>)
    ensures
        !own.contains_key("accept"@) ==> request_fields(own).contains_key("accept"@)
            && request_fields(own)["accept"@] == seq![seq![42u8, 47u8, 42u8]],
        !own.contains_key("connection"@) ==> request_fields(own).contains_key("connection"@)
            && request_fields(own)["connection"@] == seq![
            seq![107u8, 101u8, 101u8, 112u8, 45u8, 97u8, 108u8, 105u8, 118u8, 101u8],
        ],
        forall|name: Seq<char>| #[trigger]
            request_fields(own).contains_key(name) ==> name == "accept"@ || name == "connection"@
                || own.contains_key(name),
        forall|name: Seq<char>| #[trigger]
            request_fields(own).contains_key(name) ==> request_fields(own)[name].len() == 1,
        forall|name: Seq<char>| #[trigger]
            own.contains_key(name) && own[name].len() > 0 ==> request_fields(own).contains_key(name)
                && request_fields(own)[name][0] == own[name].last(),
{
    reveal_strlit("accept");
    reveal_strlit("connection");
    reveal_strlit("*/*");
    reveal_strlit("keep-alive");
    assert("accept"@.len() != "connection"@.len());
    assert(header_fields::ascii_bytes("*/*"@) =~= seq![42u8, 47u8, 42u8]);
    assert(header_fields::ascii_bytes("keep-alive"@) =~= seq![
        107u8,
        101u8,
        101u8,
        112u8,
        45u8,
        97u8,
        108u8,
        105u8,
        118u8,
        101u8,
    ]);
}

/// A request for the file gets what is at the URL that was set up, or where a response pointed as
/// seen from there, by HTTP 1.1 and without a time after which it is given up, with the fields that
/// were set up.
pub proof fn law_request_gets_the_file(
    config: HttpDownloadConfig,
    location: Option<&str>,
    request: HttpRequest,
)
    requires
        config.is_request(location, request),
    ensures
        request.method@ == "GET"@,
        location is None ==> request.url@ == config.url@,
        location matches Some(location) ==> url_joined(config.url@, location@) == Some(
            request.url@,
        ),
        request.version == HttpVersion::Http11,
        request.timeout is None,
        forall|name: Seq<char>|
            header_fields::field_values(config.header_map, name).len() > 0 ==> (
            #[trigger] header_fields::field_values(request.headers, name)) == seq![
                header_fields::field_values(config.header_map, name).last(),
            ],
{
    assert forall|name: Seq<char>|
        header_fields::field_values(config.header_map, name).len() > 0 implies (
    #[trigger] header_fields::field_values(request.headers, name)) == seq![
        header_fields::field_values(config.header_map, name).last(),
    ] by {
        law_own_fields_come_first(header_fields::fields(config.header_map), name);
    }
}

/// There is no request exactly if there are too many fields for one, or nowhere for it to go: the
/// URL that was set up is always somewhere.
pub proof fn law_request_is_refused_for_a_reason(config: HttpDownloadConfig, location: Option<&str>)
    ensures
        match config.request_refusal(location) {
            Some(RequestError::TooManyFields) => !fits_in_request(
                header_fields::fields(config.header_map),
            ),
            Some(RequestError::InvalidLocation) => {
                &&& fits_in_request(header_fields::fields(config.header_map))
                &&& location matches Some(location) && url_joined(config.url@, location@) is None
            },
            None => {
                &&& fits_in_request(header_fields::fields(config.header_map))
                &&& location matches Some(location) ==> url_joined(config.url@, location@) is Some
            },
        },
        location is None ==> config.request_refusal(location)
            != Some(RequestError::InvalidLocation),
{
}

/// A downloader is set up with exactly what was asked for, and a name that was given is the name of
/// the file.
pub proof fn law_settings_are_those_that_were_asked_for(
    builder: HttpDownloaderBuilder,
    downloader: HttpFileDownloader,
)
    requires
        builder.sets_up(downloader),
    ensures
        ({
            let config = downloader.config;
            &&& config.chunk_size == builder.chunk_size
            &&& config.download_connection_count == builder.download_connection_count
            &&& config.url@ == builder.url@
            &&& config.save_dir@ == builder.save_dir@
            &&& config.set_len_in_advance == builder.set_len_in_advance
            &&& config.create_dir == builder.create_dir
            &&& config.request_retry_count == builder.request_retry_count
            &&& header_fields::tag_bytes(config.etag) == header_fields::tag_bytes(builder.etag)
            &&& header_fields::fields(config.header_map) == header_fields::fields(
                builder.header_map,
            )
            &&& config.downloaded_len_send_interval == builder.downloaded_len_send_interval
            &&& config.chunks_send_interval == builder.chunks_send_interval
            &&& config.handle_zero_content == builder.handle_zero_content
            &&& config.strict_check_accept_ranges == builder.strict_check_accept_ranges
            &&& config.handle_redirection == builder.handle_redirection
            &&& builder.file_name matches Some(name) ==> config.file_name@ == name@
            &&& builder.file_name is None ==> {
                let parts = url_path_segments(builder.url@);
                &&& parts is Some && parts->Some_0.len() > 0 && parts->Some_0.last().len() > 0
                    ==> config.file_name@ == parts->Some_0.last()
                &&& parts is None ==> config.file_name@ == "index.html"@
            }
            &&& builder.valid() ==> config.valid()
        }),
        downloader@.downloading is None,
        downloader@.downloaded_len() == 0,
        downloader@.total_size() is None,
        !downloader@.is_total_size_known,
{
    if builder.file_name is None && url_path_segments(builder.url@) is Some {
        let parts = url_path_segments(builder.url@)->Some_0;
        if parts.len() > 0 {
            law_last_part_names_the_file(parts.drop_last(), parts.last(), url_domain(builder.url@));
            assert(parts.drop_last().push(parts.last()) =~= parts);
        }
    }
}

/// A file is saved under its name in its directory: the path begins with the directory and ends
/// with the name, with at most a separator in between.
pub proof fn law_file_is_saved_in_its_directory(config: HttpDownloadConfig, path: Seq<char>)
    requires
        paths::is_plain_name(config.file_name@),
        !paths::is_verbatim(config.save_dir@),
        config.is_file_path(path),
    ensures
        ({
            let dir = config.save_dir@;
            let name = config.file_name@;
            &&& dir.len() + name.len() <= path.len() <= dir.len() + 1 + name.len()
            &&& path.take(dir.len() as int) == dir
            &&& path.skip(path.len() - name.len()) == name
            &&& path.len() == dir.len() + 1 + name.len() ==> paths::is_separator(
                path[dir.len() as int],
            )
        }),
{
    let dir = config.save_dir@;
    let name = config.file_name@;
    assert(path.take(dir.len() as int) =~= dir);
    assert(path.skip(path.len() - name.len()) =~= name);
}

} // verus!
