//! The services behind the relay proxy, and the addresses that requests are sent to.

use crate::settings::RelayProfile;
use crate::text;
use vstd::prelude::*;

verus! {

/// The address of a service as requests are sent to it: without white space around it, without
/// slashes at its end, and ending in the version.
pub open spec fn normalized_base(base_url: Seq<char>) -> Seq<char> {
    let bare = text::without_trailing(text::trimmed(base_url), '/');
    if "/v1"@.is_suffix_of(bare) {
        bare
    } else {
        bare + "/v1"@
    }
}

/// The path with a slash in front.
pub open spec fn with_leading_slash(path: Seq<char>) -> Seq<char> {
    if path.len() > 0 && path[0] == '/' {
        path
    } else {
        "/"@ + path
    }
}

/// The path of a request without its query.
pub open spec fn without_query(path: Seq<char>) -> Seq<char> {
    path.take(text::until(path, '?') as int)
}

/// What follows the address of the service when a request for `path` is sent there. Whatever
/// stands before the name of a known resource is left out, and so is the version.
pub open spec fn resource_of(path: Seq<char>) -> Seq<char> {
    if "/responses"@.is_suffix_of(path) {
        "/responses"@
    } else if "/models"@.is_suffix_of(path) {
        "/models"@
    } else {
        with_leading_slash(text::without_leading(path, "/v1"@))
    }
}

/// The address that a request for `path` is sent to.
pub open spec fn target_of(base_url: Seq<char>, path: Seq<char>) -> Seq<char> {
    normalized_base(base_url) + resource_of(without_query(path))
}

/// The address of a service as requests are sent to it.
pub fn normalize_base_url(base_url: &str) -> (base: String)
    ensures
        base@ == normalized_base(base_url@),
{
    let trimmed = text::trim(base_url);
    let bare = text::trim_end_char(trimmed.as_str(), '/');
    if text::ends_with(bare.as_str(), "/v1") {
        bare
    } else {
        bare.concat("/v1")
    }
}

/// The path with a slash in front.
pub fn ensure_leading_slash(path: &str) -> (slashed: String)
    ensures
        slashed@ == with_leading_slash(path@),
{
    proof {
        reveal_strlit("/");
    }
    if text::starts_with(path, "/") {
        assert(path@.subrange(0, 1)[0] == "/"@[0]);
        path.to_owned()
    } else {
        proof {
            if path@.len() > 0 && path@[0] == '/' {
                assert("/"@ =~= path@.subrange(0, 1));
            }
        }
        "/".to_owned().concat(path)
    }
}

/// The address that a request for `path` is sent to.
pub fn target_url(base_url: &str, path: &str) -> (url: String)
    ensures
        url@ == target_of(base_url@, path@),
{
    let base = normalize_base_url(base_url);
    let path = text::before_first(path, '?');
    if text::ends_with(path.as_str(), "/responses") {
        base.concat("/responses")
    } else if text::ends_with(path.as_str(), "/models") {
        base.concat("/models")
    } else {
        let rest = text::trim_start_text(path.as_str(), "/v1");
        base.concat(ensure_leading_slash(rest.as_str()).as_str())
    }
}

/// The services that the relay proxy sends requests to.
#[derive(Debug, Clone, PartialEq, Eq)]
pub struct RelayProxyConfig {
    pub text_base_url: String,
    pub text_api_key: String,
    pub image_base_url: Option<String>,
    pub image_api_key: Option<String>,
}

impl RelayProxyConfig {
    /// Whether the image service, if there is one, comes with its key.
    pub open spec fn well_formed(self) -> bool {
        self.image_base_url is Some <==> self.image_api_key is Some
    }

    /// The services of a profile, if its requests go through the relay proxy.
    pub fn from_profile(profile: &RelayProfile) -> (config: Option<Self>)
        ensures
            config is Some <==> profile.local_relay_proxy,
            config matches Some(config) ==> {
                &&& config.well_formed()
                &&& config.text_base_url@ == normalized_base(profile.base_url@)
                &&& config.text_api_key@ == text::trimmed(profile.api_key@)
                &&& config.image_base_url is Some <==> profile.separate_image_generation_api
                &&& config.image_base_url matches Some(base_url) ==> base_url@ == normalized_base(
                    profile.image_generation_base_url@,
                )
                &&& config.image_api_key matches Some(api_key) ==> api_key@ == text::trimmed(
                    profile.image_generation_api_key@,
                )
            },
    {
        if !profile.needs_local_relay_proxy() {
            return None;
        }
        let (image_base_url, image_api_key) = if profile.uses_separate_image_generation_api() {
            (
                Some(normalize_base_url(profile.image_generation_base_url.as_str())),
                Some(text::trim(profile.image_generation_api_key.as_str())),
            )
        } else {
            (None, None)
        };
        Some(
            RelayProxyConfig {
                text_base_url: normalize_base_url(profile.base_url.as_str()),
                text_api_key: text::trim(profile.api_key.as_str()),
                image_base_url,
                image_api_key,
            },
        )
    }
}

proof fn lemma_trailing_space_prefix(s: Seq<char>)
    ensures
        text::without_trailing_space(s).is_prefix_of(s),
    decreases s.len(),
{
    if s.len() > 0 && text::is_white_space(s.last()) {
        lemma_trailing_space_prefix(s.drop_last());
    }
}

proof fn lemma_trailing_prefix(s: Seq<char>, c: char)
    ensures
        text::without_trailing(s, c).is_prefix_of(s),
    decreases s.len(),
{
    if s.len() > 0 && s.last() == c {
        lemma_trailing_prefix(s.drop_last(), c);
    }
}

/// Every address that requests are sent to ends in the version.
pub proof fn law_normalized_base_ends_in_version(base_url: Seq<char>)
    ensures
        "/v1"@.is_suffix_of(normalized_base(base_url)),
{
    let base = normalized_base(base_url);
    assert("/v1"@ =~= base.subrange(base.len() - "/v1"@.len(), base.len() as int));
}

/// Normalizing an address twice does no more than normalizing it once.
pub proof fn law_normalizing_is_idempotent(base_url: Seq<char>)
    ensures
        normalized_base(normalized_base(base_url)) == normalized_base(base_url),
{
    reveal_strlit("/v1");
    let base = normalized_base(base_url);
    let started = text::without_leading_space(base_url);
    let trimmed = text::trimmed(base_url);
    let bare = text::without_trailing(trimmed, '/');
    text::lemma_without_leading_space(base_url);
    lemma_trailing_space_prefix(started);
    lemma_trailing_prefix(trimmed, '/');
    law_normalized_base_ends_in_version(base_url);
    assert(base.last() == "/v1"@[2]);
    if bare.len() > 0 {
        assert(trimmed[0] == started[0]);
        assert(bare[0] == started[0]);
        assert(base[0] == bare[0]);
    } else {
        assert(base[0] == "/v1"@[0]);
    }
    assert(text::without_leading_space(base) == base);
    assert(text::without_trailing_space(base) == base);
    assert(text::without_trailing(base, '/') == base);
}

proof fn lemma_until_before_query(path: Seq<char>, query: Seq<char>)
    ensures
        text::until(path, '?') <= path.len(),
        text::until(path.push('?') + query, '?') == text::until(path, '?'),
    decreases path.len(),
{
    let whole = path.push('?') + query;
    if path.len() > 0 {
        lemma_until_before_query(path.drop_first(), query);
        assert(whole.drop_first() =~= path.drop_first().push('?') + query);
    }
}

/// The query of a request has no part in the address that it is sent to.
pub proof fn law_query_is_dropped(base_url: Seq<char>, path: Seq<char>, query: Seq<char>)
    ensures
        target_of(base_url, path.push('?') + query) == target_of(base_url, path),
{
    lemma_until_before_query(path, query);
    assert(without_query(path.push('?') + query) =~= without_query(path));
}

/// A request is sent to the same address whether its path names the version or not.
pub proof fn law_version_in_path_is_optional(base_url: Seq<char>, path: Seq<char>)
    ensures
        target_of(base_url, "/v1"@ + path) == target_of(base_url, path),
{
    reveal_strlit("/v1");
    reveal_strlit("/responses");
    reveal_strlit("/models");
    let versioned = "/v1"@ + path;
    assert(versioned.drop_first().drop_first().drop_first() =~= path);
    assert(text::until(versioned, '?') == 3 + text::until(path, '?')) by {
        reveal_with_fuel(text::until, 4);
    }
    let bare = without_query(path);
    assert(without_query(versioned) =~= "/v1"@ + bare) by {
        lemma_until_bounded(path, '?');
    }
    lemma_suffix_after(bare, "/responses"@);
    lemma_suffix_after(bare, "/models"@);
    assert("/v1"@.is_prefix_of("/v1"@ + bare));
    assert(("/v1"@ + bare).skip(3) =~= bare);
}

proof fn lemma_until_bounded(s: Seq<char>, stop: char)
    ensures
        text::until(s, stop) <= s.len(),
    decreases s.len(),
{
    if s.len() > 0 && s[0] != stop {
        lemma_until_bounded(s.drop_first(), stop);
    }
}

/// A text that begins with a slash and then no `v` ends a path with the version in front only if
/// it ends the path without it.
proof fn lemma_suffix_after(path: Seq<char>, suffix: Seq<char>)
    requires
        suffix.len() > 3,
        suffix[0] == '/',
        suffix[1] != 'v',
    ensures
        suffix.is_suffix_of("/v1"@ + path) == suffix.is_suffix_of(path),
{
    reveal_strlit("/v1");
    let whole = "/v1"@ + path;
    let n = suffix.len() as int;
    if suffix.is_suffix_of(whole) {
        let from = whole.len() - n;
        assert(whole.subrange(from, whole.len() as int)[0] == whole[from]);
        assert(whole.subrange(from, whole.len() as int)[1] == whole[from + 1]);
        assert(from >= 3);
        assert(path.subrange(from - 3, path.len() as int) =~= suffix);
    }
    if suffix.is_suffix_of(path) {
        assert(whole.subrange(whole.len() - n, whole.len() as int) =~= suffix);
    }
}

/// A path that holds no query and ends in no known resource is kept behind the address of the
/// service, with a slash in front of it, whether the version stands before it or not.
pub proof fn law_other_paths_are_kept(base_url: Seq<char>, path: Seq<char>)
    requires
        !path.contains('?'),
        !"/v1"@.is_prefix_of(path),
        !"/responses"@.is_suffix_of(path),
        !"/models"@.is_suffix_of(path),
    ensures
        path.len() > 0 && path[0] == '/' ==> target_of(base_url, path) == normalized_base(base_url)
            + path,
        !(path.len() > 0 && path[0] == '/') ==> target_of(base_url, path) == normalized_base(
            base_url,
        ).push('/') + path,
        target_of(base_url, "/v1"@ + path) == target_of(base_url, path),
{
    reveal_strlit("/");
    law_version_in_path_is_optional(base_url, path);
    text::law_split_at_first_stop(path, '?', seq![]);
    lemma_until_bounded(path, '?');
    assert(without_query(path) =~= path);
    assert(normalized_base(base_url) + ("/"@ + path) =~= normalized_base(base_url).push('/')
        + path);
}

/// A path that ends in a known resource leads to that resource of the service, whatever stands
/// before it.
pub proof fn law_known_resources_are_found(base_url: Seq<char>, before: Seq<char>)
    requires
        !before.contains('?'),
    ensures
        target_of(base_url, before + "/responses"@) == normalized_base(base_url) + "/responses"@,
        target_of(base_url, before + "/models"@) == normalized_base(base_url) + "/models"@,
{
    reveal_strlit("/responses");
    reveal_strlit("/models");
    let responses = before + "/responses"@;
    let models = before + "/models"@;
    assert(!responses.contains('?')) by {
        if responses.contains('?') {
            let i = responses.index_of('?');
            assert(i < before.len());
            assert(before[i] == '?');
        }
    }
    assert(!models.contains('?')) by {
        if models.contains('?') {
            let i = models.index_of('?');
            assert(i < before.len());
            assert(before[i] == '?');
        }
    }
    text::law_split_at_first_stop(responses, '?', seq![]);
    text::law_split_at_first_stop(models, '?', seq![]);
    lemma_until_bounded(responses, '?');
    lemma_until_bounded(models, '?');
    assert(without_query(responses) =~= responses);
    assert(without_query(models) =~= models);
    assert("/responses"@ =~= responses.subrange(responses.len() - 10, responses.len() as int));
    assert("/models"@ =~= models.subrange(models.len() - 7, models.len() as int));
    assert(!"/responses"@.is_suffix_of(models)) by {
        if "/responses"@.is_suffix_of(models) {
            let end = models.subrange(models.len() - 10, models.len() as int);
            assert(end[9 - 1] == models[models.len() - 2]);
            assert("/responses"@[8] == end[8]);
            assert(models[models.len() - 2] == "/models"@[5]);
        }
    }
}

proof fn lemma_slashes_are_taken(bare: Seq<char>, slashes: Seq<char>)
    requires
        forall|i: int| 0 <= i < slashes.len() ==> #[trigger] slashes[i] == '/',
    ensures
        text::without_trailing(bare + slashes, '/') == text::without_trailing(bare, '/'),
    decreases slashes.len(),
{
    if slashes.len() > 0 {
        assert((bare + slashes).last() == slashes.last());
        assert((bare + slashes).drop_last() =~= bare + slashes.drop_last());
        lemma_slashes_are_taken(bare, slashes.drop_last());
    } else {
        assert(bare + slashes =~= bare);
    }
}

/// The address of a service is kept, without the white space around it and the slashes at its end,
/// and the version is put behind it if it is missing.
pub proof fn law_base_is_kept(
    before: Seq<char>,
    bare: Seq<char>,
    slashes: Seq<char>,
    after: Seq<char>,
)
    requires
        text::is_blank(before),
        text::is_blank(after),
        text::is_tight(bare),
        bare.len() > 0,
        bare.last() != '/',
        forall|i: int| 0 <= i < slashes.len() ==> #[trigger] slashes[i] == '/',
    ensures
        "/v1"@.is_suffix_of(bare) ==> normalized_base(before + (bare + slashes) + after) == bare,
        !"/v1"@.is_suffix_of(bare) ==> normalized_base(before + (bare + slashes) + after) == bare
            + "/v1"@,
{
    let whole = bare + slashes;
    assert(whole[0] == bare[0]);
    if slashes.len() > 0 {
        assert(whole.last() == slashes.last());
    } else {
        assert(whole =~= bare);
    }
    text::law_trimming_takes_white_space(before, whole, after);
    lemma_slashes_are_taken(bare, slashes);
}

} // verus!
