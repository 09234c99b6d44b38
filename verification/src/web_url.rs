use vstd::prelude::*;

verus! {

/// The text of the URL that `url::Url::join` gives when `input` is resolved against the
/// absolute URL that `url::Url::parse` reads from `base`; `None` where either call fails.
pub uninterp spec fn url_join(base: Seq<char>, input: Seq<char>) -> Option<Seq<char>>;

/// Reads `base` with `url::Url::parse`, resolves `input` against it with `url::Url::join`,
/// and gives the serialization of the result (`url::Url::as_str`).
/// The contract names that text `url_join(base, input)`, a function of the two texts alone;
/// what the text is (the resolution and percent-encoding rules of the url crate) is not stated.
#[verifier::external_body]
pub(crate) fn join_url(base: &str, input: &str) -> (r: Option<String>)
    ensures
        r.deep_view() == url_join(base@, input@),
{
    match url::Url::parse(base) {
        Ok(b) => match b.join(input) {
            Ok(u) => Some(u.as_str().to_string()),
            Err(_) => None,
        },
        Err(_) => None,
    }
}

} // verus!
