//! The address of the upstream service.
use vstd::prelude::*;

use crate::openai::OpenAiType;
use crate::text::{self, CharClass};

pub mod laws;

verus! {

/// A parsed address.
#[verifier::external_type_specification]
#[verifier::external_body]
pub struct ExUrl(url::Url);

/// The parts of an address. As a whole it is what stands before the path, the path
/// and what stands behind it.
pub struct UrlModel {
    /// What stands before the path: scheme, user, host and port.
    pub front: Seq<char>,
    pub scheme: Seq<char>,
    pub host: Option<Seq<char>>,
    pub path: Seq<char>,
    /// What stands behind the path: query and fragment.
    pub back: Seq<char>,
}

impl UrlModel {
    /// The address as a whole.
    pub open spec fn href(self) -> Seq<char> {
        self.front + self.path + self.back
    }
}

/// The parts of an address: what stands before `url::Position::BeforePath`, what
/// `scheme`, `host_str` and `path` of `url::Url` give, and what stands behind
/// `url::Position::AfterPath`.
pub uninterp spec fn url_parts(address: url::Url) -> UrlModel;

/// What `url::Url::parse` makes of a text: an address, or a message that says why
/// it is none.
pub uninterp spec fn url_parse(raw: Seq<char>) -> Result<UrlModel, Seq<char>>;

/// The parts of an address when `url::Url::set_path` has given it a path.
pub uninterp spec fn path_set(address: url::Url, path: Seq<char>) -> UrlModel;

/// `url::Url::clone`: the clone is the same address.
pub assume_specification[ <url::Url as Clone>::clone ](address: &url::Url) -> (r: url::Url)
    ensures
        r == *address,
;

/// `url::Url::as_str`: the address as a whole, which is its parts one behind the
/// other.
pub assume_specification[ url::Url::as_str ](address: &url::Url) -> (r: &str)
    ensures
        r@ == url_parts(*address).href(),
;

/// `url::Url::scheme`: what stands before the first colon.
pub assume_specification[ url::Url::scheme ](address: &url::Url) -> (r: &str)
    ensures
        r@ == url_parts(*address).scheme,
;

/// `url::Url::host_str`: the host, if the address has one.
pub assume_specification[ url::Url::host_str ](address: &url::Url) -> (r: std::option::Option<&str>)
    ensures
        r is Some == url_parts(*address).host is Some,
        r is Some ==> r->0@ == url_parts(*address).host->0,
;

/// `url::Url::path`: the path, without query and fragment.
pub assume_specification[ url::Url::path ](address: &url::Url) -> (r: &str)
    ensures
        r@ == url_parts(*address).path,
;

/// Whether an address is one of the web: over HTTP, with a host.
pub open spec fn is_web(parts: UrlModel) -> bool {
    is_http(parts) && parts.host is Some
}

/// Whether an address is over HTTP.
pub open spec fn is_http(parts: UrlModel) -> bool {
    parts.scheme == "http"@ || parts.scheme == "https"@
}

/// Whether a character stands for itself in the path of an address of the web: it is
/// visible ASCII and none of those that are written otherwise there.
pub open spec fn is_path_char(c: char) -> bool {
    &&& '!' <= c <= '~'
    &&& c != '"' && c != '#' && c != '<' && c != '>' && c != '?'
    &&& c != '\\' && c != '`' && c != '{' && c != '}'
}

/// Whether a segment of a path stands for the segment itself or the one above it.
pub open spec fn is_dots(segment: Seq<char>) -> bool {
    let small = text::lower(segment);
    ||| small == "."@
    ||| small == "%2e"@
    ||| small == ".."@
    ||| small == ".%2e"@
    ||| small == "%2e."@
    ||| small == "%2e%2e"@
}

/// Whether no segment of a path is one of dots.
pub open spec fn no_dots(path: Seq<char>) -> bool {
    forall|i: int|
        0 <= i < text::split_on(path, '/').len() ==> !is_dots(
            #[trigger] text::split_on(path, '/')[i],
        )
}

/// Whether a path is settled, so that nothing in it is rewritten: it begins with a
/// solidus, its characters stand for themselves, and no segment is one of dots.
pub open spec fn is_settled(path: Seq<char>) -> bool {
    &&& path.len() > 0
    &&& path[0] == '/'
    &&& forall|i: int| 0 <= i < path.len() ==> is_path_char(#[trigger] path[i])
    &&& no_dots(path)
}

/// The most bytes that an address may have once a path is set in it.
pub open spec fn room_for(address: url::Url, path: Seq<char>) -> nat {
    vstd::utf8::encode_utf8(url_parts(address).href()).len() + 3 * vstd::utf8::encode_utf8(
        path,
    ).len() + 16
}

/// Whether a text can end a path without being rewritten, whatever stands before it:
/// it begins with a solidus and is made of small letters and solidi.
pub open spec fn is_tail(tail: Seq<char>) -> bool {
    &&& tail.len() > 0
    &&& tail[0] == '/'
    &&& forall|i: int|
        0 <= i < tail.len() ==> (#[trigger] tail[i]) == '/' || 'a' <= tail[i] <= 'z'
}

/// `url::Url::set_path`: the new parts depend on the address and the path alone.
/// Everything but the path stays. In an address of the web the new path is settled,
/// it ends in the words that the given path ends in, and a settled path is taken as
/// it is. It panics where the address would come to hold more bytes than a `u32` can
/// count; a byte of the path takes three at most.
pub assume_specification[ url::Url::set_path ](address: &mut url::Url, path: &str)
    requires
        room_for(*old(address), path@) <= u32::MAX,
    ensures
        url_parts(*final(address)) == path_set(*old(address), path@),
        url_parts(*final(address)) == (UrlModel {
            path: url_parts(*final(address)).path,
            ..url_parts(*old(address))
        }),
        is_web(url_parts(*old(address))) ==> is_settled(url_parts(*final(address)).path),
        is_web(url_parts(*old(address))) && is_settled(path@) ==> url_parts(
            *final(address),
        ).path == path@,
        forall|tail: Seq<char>|
            is_web(url_parts(*old(address))) && is_tail(tail) && #[trigger] text::ends_with(
                path@,
                tail,
            ) ==> text::ends_with(url_parts(*final(address)).path, tail),
;

/// `url::Url::parse`: an address with its parts, or why the text is none; which
/// depends on the text alone. The path of an address of the web is settled.
#[verifier::external_body]
fn parse_url(raw: &str) -> (r: Result<url::Url, String>)
    ensures
        parsed(r) == url_parse(raw@),
        r matches Ok(address) ==> is_web(url_parts(address)) ==> is_settled(
            url_parts(address).path,
        ),
{
    url::Url::parse(raw).map_err(|error| error.to_string())
}

/// What reading an address gave, in terms of what it says.
pub open spec fn parsed(result: Result<url::Url, String>) -> Result<UrlModel, Seq<char>> {
    match result {
        Ok(address) => Ok(url_parts(address)),
        Err(message) => Err(message@),
    }
}

/// What becomes of the result of reading a base address.
pub open spec fn base_url(result: Result<UrlModel, Seq<char>>) -> Result<UrlModel, Seq<char>> {
    match result {
        Err(error) => Err("base_url 无效: "@ + error),
        Ok(parts) => if !is_http(parts) {
            Err("base_url 只支持 http 或 https"@)
        } else if parts.host is None {
            Err("base_url 必须包含主机名"@)
        } else {
            Ok(parts)
        },
    }
}

/// Whether an address is over HTTP.
fn has_http(address: &url::Url) -> (r: bool)
    ensures
        r == is_http(url_parts(*address)),
{
    text::same_text(address.scheme(), "http") || text::same_text(address.scheme(), "https")
}

/// Takes what reading a base address gave: only an address of the web will do.
pub fn check_base_url(result: Result<url::Url, String>) -> (r: Result<url::Url, String>)
    ensures
        parsed(r) == base_url(parsed(result)),
        r is Ok ==> r == result,
{
    match result {
        Err(error) => {
            let mut message = "base_url 无效: ".to_owned();
            message.append(error.as_str());
            Err(message)
        },
        Ok(address) => {
            if !has_http(&address) {
                return Err("base_url 只支持 http 或 https".to_owned());
            }
            if address.host_str().is_none() {
                return Err("base_url 必须包含主机名".to_owned());
            }
            Ok(address)
        },
    }
}

/// Reads a base address: only an address of the web will do.
pub fn parse_base_url(raw: &str) -> (r: Result<url::Url, String>)
    ensures
        parsed(r) == base_url(url_parse(raw@)),
        r matches Ok(address) ==> is_settled(url_parts(address).path),
{
    check_base_url(parse_url(raw))
}

/// Where a service takes requests of a protocol.
pub open spec fn endpoint(api_type: OpenAiType) -> Seq<char> {
    match api_type {
        OpenAiType::Responses => "responses"@,
        OpenAiType::Chat => "chat/completions"@,
    }
}

/// The path for requests of a protocol, from the path of the base address: the
/// endpoint itself, the endpoint below the base, or below `/v1` where the base is
/// the root.
pub open spec fn full_path(path: Seq<char>, api_type: OpenAiType) -> Seq<char> {
    let base = text::trim_back(path, CharClass::Slash);
    let suffix = "/"@ + endpoint(api_type);
    if text::ends_with(base, suffix) {
        base
    } else if base.len() == 0 {
        "/v1/"@ + endpoint(api_type)
    } else {
        base + suffix
    }
}

/// The path for requests of a protocol, from the path of the base address.
pub fn endpoint_path(path: &str, api_type: OpenAiType) -> (r: String)
    ensures
        r@ == full_path(path@, api_type),
{
    let name = match api_type {
        OpenAiType::Responses => "responses",
        OpenAiType::Chat => "chat/completions",
    };
    let base = text::trim_end(path, CharClass::Slash);
    let mut suffix = "/".to_owned();
    suffix.append(name);
    if text::has_suffix(base, suffix.as_str()) {
        base.to_owned()
    } else if base.is_empty() {
        let mut full = "/v1/".to_owned();
        full.append(name);
        full
    } else {
        let mut full = base.to_owned();
        full.append(suffix.as_str());
        full
    }
}

/// Whether the path for requests can be set in an address.
pub open spec fn fits(base: url::Url, api_type: OpenAiType) -> bool {
    room_for(base, full_path(url_parts(base).path, api_type)) <= u32::MAX
}

/// What is said of a base address that is not one of the web.
pub open spec fn not_web() -> Seq<char> {
    "base_url 必须是有效的 http(s) URL"@
}

/// The address for requests of a protocol, from the base address: only the path is
/// another.
pub open spec fn with_endpoint(base: UrlModel, api_type: OpenAiType) -> UrlModel {
    UrlModel { path: full_path(base.path, api_type), ..base }
}

/// The address for requests of a protocol, from the base address. Only the path
/// changes, and it ends in the endpoint; so a second call changes nothing.
pub fn upstream_url(base: &url::Url, api_type: OpenAiType) -> (r: Result<url::Url, String>)
    requires
        fits(*base, api_type),
    ensures
        r is Ok == is_web(url_parts(*base)),
        match r {
            Ok(address) => {
                let path = full_path(url_parts(*base).path, api_type);
                &&& url_parts(address) == path_set(*base, path)
                &&& url_parts(address) == (UrlModel {
                    path: url_parts(address).path,
                    ..url_parts(*base)
                })
                &&& is_settled(url_parts(address).path)
                &&& with_endpoint(url_parts(address), api_type) == url_parts(address)
                &&& text::ends_with(url_parts(address).path, "/"@ + endpoint(api_type))
                &&& is_settled(url_parts(*base).path) ==> url_parts(address) == with_endpoint(
                    url_parts(*base),
                    api_type,
                )
            },
            Err(message) => message@ == not_web(),
        },
{
    let mut address = base.clone();
    let path = endpoint_path(base.path(), api_type);
    proof {
        if is_settled(url_parts(*base).path) {
            law_settled_path_stays_settled(url_parts(*base).path, api_type);
        }
        law_path_ends_in_endpoint(url_parts(*base).path, api_type);
        lemma_endpoint_is_tail(api_type);
    }
    address.set_path(path.as_str());
    proof {
        if is_web(url_parts(*base)) {
            law_second_call_changes_nothing(url_parts(address), api_type);
        }
    }
    if !has_http(&address) || address.host_str().is_none() {
        return Err("base_url 必须是有效的 http(s) URL".to_owned());
    }
    Ok(address)
}

/// The address for requests of a protocol, from the base address as text. `None`
/// where the base is an address and so long that no path can be set in it.
pub fn configure_upstream(raw: &str, api_type: OpenAiType) -> (r: Option<Result<url::Url, String>>)
    ensures
        match base_url(url_parse(raw@)) {
            Err(message) => r matches Some(Err(found)) && found@ == message,
            Ok(parts) => {
                let path = full_path(parts.path, api_type);
                let room = vstd::utf8::encode_utf8(parts.href()).len() + 3
                    * vstd::utf8::encode_utf8(path).len() + 16;
                if room <= u32::MAX {
                    r matches Some(Ok(address)) && url_parts(address) == with_endpoint(
                        parts,
                        api_type,
                    )
                } else {
                    r is None
                }
            },
        },
{
    match parse_base_url(raw) {
        Err(message) => Some(Err(message)),
        Ok(base) => {
            let path = endpoint_path(base.path(), api_type);
            let held: usize = base.as_str().as_bytes().len();
            let added: usize = path.as_str().as_bytes().len();
            let room: u128 = held as u128 + 3 * (added as u128) + 16;
            if room > u32::MAX as u128 {
                return None;
            }
            Some(upstream_url(&base, api_type))
        },
    }
}

/// A path that ends in no solidus stays as it is when those at its end go.
proof fn lemma_trimmed(path: Seq<char>)
    requires
        path.len() > 0,
        path.last() != '/',
    ensures
        text::trim_back(path, CharClass::Slash) == path,
{
}

/// The path for requests always ends in the endpoint of the protocol.
pub proof fn law_path_ends_in_endpoint(path: Seq<char>, api_type: OpenAiType)
    ensures
        text::ends_with(full_path(path, api_type), "/"@ + endpoint(api_type)),
{
    reveal_strlit("/v1/");
    reveal_strlit("/");
    let base = text::trim_back(path, CharClass::Slash);
    let suffix = "/"@ + endpoint(api_type);
    if !text::ends_with(base, suffix) {
        let full = full_path(path, api_type);
        assert(full.skip(full.len() - suffix.len()) =~= suffix);
    }
}

/// An endpoint is never put behind itself: the path of an address that is already
/// complete stays.
pub proof fn law_complete_path_stays(base: UrlModel, api_type: OpenAiType)
    ensures
        with_endpoint(with_endpoint(base, api_type), api_type) == with_endpoint(base, api_type),
{
    law_path_ends_in_endpoint(base.path, api_type);
    law_second_call_changes_nothing(with_endpoint(base, api_type), api_type);
}

/// Solidi at the end of the path of a base address do not matter.
pub proof fn law_trailing_slash_does_not_matter(path: Seq<char>, api_type: OpenAiType)
    ensures
        full_path(path.push('/'), api_type) == full_path(path, api_type),
{
    assert(path.push('/').drop_last() =~= path);
    assert(text::trim_back(path.push('/'), CharClass::Slash) == text::trim_back(
        path,
        CharClass::Slash,
    ));
}

/// An endpoint, with the solidus before it, can end a path.
proof fn lemma_endpoint_is_tail(api_type: OpenAiType)
    ensures
        is_tail("/"@ + endpoint(api_type)),
{
    reveal_strlit("/");
    reveal_strlit("responses");
    reveal_strlit("chat/completions");
}

/// An address whose path ends in the endpoint stays as it is: once the endpoint was
/// set, setting it again changes nothing.
pub proof fn law_second_call_changes_nothing(address: UrlModel, api_type: OpenAiType)
    requires
        text::ends_with(address.path, "/"@ + endpoint(api_type)),
    ensures
        with_endpoint(address, api_type) == address,
{
    reveal_strlit("/");
    reveal_strlit("responses");
    reveal_strlit("chat/completions");
    let suffix = "/"@ + endpoint(api_type);
    let path = address.path;
    let tail = path.skip(path.len() - suffix.len());
    assert(tail.last() == path.last());
    assert(suffix.last() == 's');
    lemma_trimmed(path);
}

/// But for its path an address stays as it is, with its user, host, port, query and
/// fragment.
pub proof fn law_only_the_path_changes(base: UrlModel, api_type: OpenAiType)
    ensures
        with_endpoint(base, api_type).front == base.front,
        with_endpoint(base, api_type).back == base.back,
        with_endpoint(base, api_type).href() == base.front + full_path(base.path, api_type)
            + base.back,
        is_web(with_endpoint(base, api_type)) == is_web(base),
{
}

/// No segment of a path without the solidi at its end is one of dots, where none of
/// the path is.
proof fn lemma_trimmed_has_no_dots(path: Seq<char>)
    requires
        no_dots(path),
    ensures
        no_dots(text::trim_back(path, CharClass::Slash)),
    decreases path.len(),
{
    if path.len() > 0 && path.last() == '/' {
        let rest = path.drop_last();
        let all = text::split_on(path, '/');
        let fewer = text::split_on(rest, '/');
        assert(all == fewer.push(Seq::<char>::empty()));
        assert forall|i: int| 0 <= i < fewer.len() implies !is_dots(#[trigger] fewer[i]) by {
            assert(fewer[i] == all[i]);
        }
        lemma_trimmed_has_no_dots(rest);
    }
}

/// One more segment, which is not one of dots.
proof fn lemma_segment_has_no_dots(path: Seq<char>, segment: Seq<char>)
    requires
        no_dots(path),
        !is_dots(segment),
        forall|i: int| 0 <= i < segment.len() ==> (#[trigger] segment[i]) != '/',
    ensures
        no_dots(path.push('/') + segment),
{
    text::lemma_split_last(path, segment, '/');
    let all = text::split_on(path.push('/') + segment, '/');
    let before = text::split_on(path, '/');
    assert forall|i: int| 0 <= i < all.len() implies !is_dots(#[trigger] all[i]) by {
        if i < before.len() {
            assert(all[i] == before[i]);
        }
    }
}

/// A segment that begins with a small letter is not one of dots.
proof fn lemma_word_is_no_dots(segment: Seq<char>)
    requires
        segment.len() > 0,
        'a' <= segment[0] <= 'z',
    ensures
        !is_dots(segment),
{
    reveal_strlit(".");
    reveal_strlit("%2e");
    reveal_strlit("..");
    reveal_strlit(".%2e");
    reveal_strlit("%2e.");
    reveal_strlit("%2e%2e");
    let small = text::lower(segment);
    assert(small[0] == segment[0]);
    assert("."@[0] == '.' && "%2e"@[0] == '%' && ".."@[0] == '.');
    assert(".%2e"@[0] == '.' && "%2e."@[0] == '%' && "%2e%2e"@[0] == '%');
}

/// The endpoint below a path has no segment of dots, where the path has none.
proof fn lemma_endpoint_has_no_dots(path: Seq<char>, api_type: OpenAiType)
    requires
        no_dots(path),
    ensures
        no_dots(path + ("/"@ + endpoint(api_type))),
{
    reveal_strlit("/");
    reveal_strlit("responses");
    reveal_strlit("chat/completions");
    let whole = path + ("/"@ + endpoint(api_type));
    match api_type {
        OpenAiType::Responses => {
            lemma_word_is_no_dots("responses"@);
            lemma_segment_has_no_dots(path, "responses"@);
            assert(whole =~= path.push('/') + "responses"@);
        },
        OpenAiType::Chat => {
            let one = "chat/completions"@.take(4);
            let two = "chat/completions"@.skip(5);
            lemma_word_is_no_dots(one);
            lemma_word_is_no_dots(two);
            lemma_segment_has_no_dots(path, one);
            lemma_segment_has_no_dots(path.push('/') + one, two);
            assert(whole =~= (path.push('/') + one).push('/') + two);
        },
    }
}

/// From a settled path the path for requests is settled too.
pub proof fn law_settled_path_stays_settled(path: Seq<char>, api_type: OpenAiType)
    requires
        is_settled(path),
    ensures
        is_settled(full_path(path, api_type)),
{
    reveal_strlit("/");
    reveal_strlit("/v1/");
    reveal_strlit("responses");
    reveal_strlit("chat/completions");
    let base = text::trim_back(path, CharClass::Slash);
    lemma_trim_back_is_prefix(path);
    lemma_trimmed_has_no_dots(path);
    let suffix = "/"@ + endpoint(api_type);
    let full = full_path(path, api_type);
    assert(forall|i: int| 0 <= i < base.len() ==> (#[trigger] base[i]) == path[i]);
    assert forall|i: int| 0 <= i < full.len() implies is_path_char(#[trigger] full[i]) by {
        if i < base.len() {
            assert(full[i] == path[i]);
        } else if base.len() > 0 {
            assert(full[i] == suffix[i - base.len()]);
        } else {
            assert(text::ends_with(base, suffix) || full == "/v1/"@ + endpoint(api_type));
        }
    }
    lemma_endpoint_has_no_dots(base, api_type);
    if base.len() == 0 && !text::ends_with(base, suffix) {
        let none = Seq::<char>::empty();
        assert(base =~= none);
        let version = seq!['v', '1'];
        lemma_word_is_no_dots(version);
        lemma_segment_has_no_dots(none, version);
        lemma_endpoint_has_no_dots(none.push('/') + version, api_type);
        assert(full =~= (none.push('/') + version) + suffix);
    }
}

proof fn lemma_trim_back_is_prefix(path: Seq<char>)
    ensures
        text::trim_back(path, CharClass::Slash).len() <= path.len(),
        text::trim_back(path, CharClass::Slash) == path.take(
            text::trim_back(path, CharClass::Slash).len() as int,
        ),
    decreases path.len(),
{
    if path.len() > 0 && path.last() == '/' {
        let rest = path.drop_last();
        lemma_trim_back_is_prefix(rest);
        let n = text::trim_back(rest, CharClass::Slash).len() as int;
        assert(rest.take(n) =~= path.take(n));
    } else {
        assert(path.take(path.len() as int) =~= path);
    }
}

}
