//! What the address of the upstream comes to.
use vstd::prelude::*;

use crate::openai::OpenAiType;
use crate::text::{self, CharClass};
use crate::upstream::{self, UrlModel};

verus! {

/// The two schemes are different.
proof fn lemma_schemes()
    ensures
        "http"@ != "https"@,
{
    reveal_strlit("http");
    reveal_strlit("https");
    assert("http"@.len() == 4);
    assert("https"@.len() == 5);
}

/// The path for requests of each protocol: a path that ends in the endpoint stays, the
/// root takes the endpoint below `/v1`, and any other path takes it below itself; solidi
/// at the end of the path do not count.
pub proof fn law_path_of_each_protocol(path: Seq<char>, slashes: Seq<char>)
    requires
        path.len() > 0 ==> path.last() != '/',
        forall|i: int| 0 <= i < slashes.len() ==> (#[trigger] slashes[i]) == '/',
    ensures
        ({
            let made = upstream::full_path(path + slashes, OpenAiType::Responses);
            if path.len() == 0 {
                made == "/v1/responses"@
            } else if text::ends_with(path, "/responses"@) {
                made == path
            } else {
                made == path + "/responses"@
            }
        }),
        ({
            let made = upstream::full_path(path + slashes, OpenAiType::Chat);
            if path.len() == 0 {
                made == "/v1/chat/completions"@
            } else if text::ends_with(path, "/chat/completions"@) {
                made == path
            } else {
                made == path + "/chat/completions"@
            }
        }),
{
    text::laws::law_trimmed_back(path, slashes, CharClass::Slash);
    reveal_strlit("/");
    reveal_strlit("/v1/");
    reveal_strlit("responses");
    reveal_strlit("chat/completions");
    reveal_strlit("/responses");
    reveal_strlit("/chat/completions");
    reveal_strlit("/v1/responses");
    reveal_strlit("/v1/chat/completions");
    assert("/"@ + "responses"@ =~= "/responses"@);
    assert("/"@ + "chat/completions"@ =~= "/chat/completions"@);
    assert("/v1/"@ + "responses"@ =~= "/v1/responses"@);
    assert("/v1/"@ + "chat/completions"@ =~= "/v1/chat/completions"@);
}

/// A base address is taken if and only if it can be read, is over HTTP and has a host; or
/// else the first of these that fails is told.
pub proof fn law_base_addresses(parts: UrlModel, error: Seq<char>)
    ensures
        upstream::base_url(Err(error)) == Err::<UrlModel, Seq<char>>("base_url 无效: "@ + error),
        parts.scheme != "http"@ && parts.scheme != "https"@ ==> upstream::base_url(Ok(parts))
            == Err::<UrlModel, Seq<char>>("base_url 只支持 http 或 https"@),
        (parts.scheme == "http"@ || parts.scheme == "https"@) && parts.host is None
            ==> upstream::base_url(Ok(parts)) == Err::<UrlModel, Seq<char>>(
            "base_url 必须包含主机名"@,
        ),
        (parts.scheme == "http"@ || parts.scheme == "https"@) && parts.host is Some
            ==> upstream::base_url(Ok(parts)) == Ok::<UrlModel, Seq<char>>(parts),
        upstream::not_web() == "base_url 必须是有效的 http(s) URL"@,
        upstream::is_web(parts) <==> (parts.scheme == "http"@ || parts.scheme == "https"@)
            && parts.host is Some,
{
    lemma_schemes();
}

}
