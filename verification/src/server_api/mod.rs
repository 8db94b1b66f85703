//! Requests to other servers.
use crate::dict::{distinct_keys, Dict};
use crate::events::with_json;
use crate::json::{Json, JsonValue};
use crate::sign::{sign_json, signatures_of, Key};
use vstd::prelude::*;

verus! {

/// What is signed of a request to another server.
pub open spec fn request_json(
    method: Seq<char>,
    uri: Seq<char>,
    origin: Seq<char>,
    destination: Seq<char>,
    body: Option<Json>,
) -> Json {
    Json::Object(
        with_json(
            Map::<Seq<char>, Json>::empty().insert("method"@, Json::Text(method)).insert(
                "uri"@,
                Json::Text(uri),
            ).insert("origin"@, Json::Text(origin)).insert(
                "destination"@,
                Json::Text(destination),
            ),
            "content"@,
            body,
        ),
    )
}

/// The header that carries a signature.
pub open spec fn signature_header(origin: Seq<char>, key: Seq<char>, signature: Seq<char>) -> Seq<
    char,
> {
    "origin="@ + origin + ",key="@ + key + ",sig="@ + signature
}

fn write_header(origin: &str, key: &str, signature: &str) -> (header: String)
    ensures
        header@ == signature_header(origin@, key@, signature@),
{
    let mut header: String = "origin=".to_owned();
    header.append(origin);
    header.append(",key=");
    header.append(key);
    header.append(",sig=");
    header.append(signature);
    header
}

/// Whether some headers carry the signatures, each once, in some order.
pub open spec fn carries(
    headers: Seq<Seq<char>>,
    origin: Seq<char>,
    signatures: Map<Seq<char>, Seq<char>>,
) -> bool {
    exists|order: Seq<Seq<char>>|
        #![trigger order.no_duplicates()]
        order.no_duplicates() && order.to_set() == signatures.dom() && headers == Seq::new(
            order.len(),
            |i: int| signature_header(origin, order[i], signatures[order[i]]),
        )
}

/// The `X-Matrix` headers of a request to another server, one for each key; `None` where the request
/// has no canonical form, or where the form of a key is refused.
pub fn server_request(
    method: &str,
    path_and_query: &str,
    domain: &str,
    host: &str,
    body: Option<&JsonValue>,
    keys: &Dict<String, Key>,
) -> (r: Option<Vec<String>>)
    ensures
        ({
            let request = request_json(
                method@,
                path_and_query@,
                domain@,
                host@,
                match body {
                    Some(b) => Some(b@),
                    None => None,
                },
            );
            match r {
                Some(headers) => signatures_of(request, keys@) is Some && carries(
                    crate::text::texts(headers@),
                    domain@,
                    signatures_of(request, keys@)->0,
                ),
                None => signatures_of(request, keys@) is None,
            }
        }),
{
    let mut request = JsonValue::object();
    request.insert("method", JsonValue::text(method));
    request.insert("uri", JsonValue::text(path_and_query));
    request.insert("origin", JsonValue::text(domain));
    request.insert("destination", JsonValue::text(host));
    match body {
        Some(body) => request.insert("content", crate::dict::Duplicate::duplicate(body)),
        None => {},
    }
    let signatures = match sign_json(&request, keys) {
        Some(signatures) => signatures,
        None => return None,
    };
    let ghost listing = signatures.listing();
    let ghost order = Seq::new(listing.len(), |i: int| listing[i].0);
    let mut headers: Vec<String> = Vec::new();
    let n: usize = signatures.len();
    let mut i: usize = 0;
    while i < n
        invariant
            i <= n == listing.len(),
            listing == signatures.listing(),
            headers@.len() == i,
            forall|j: int|
                0 <= j < i ==> (#[trigger] headers@[j])@ == signature_header(
                    domain@,
                    listing[j].0,
                    signatures@[listing[j].0],
                ),
        decreases n - i,
    {
        let e = signatures.entry(i);
        headers.push(write_header(domain, e.0.as_str(), e.1.as_str()));
        i += 1;
    }
    proof {
        assert(distinct_keys(listing));
        assert forall|a: int, b: int|
            0 <= a < order.len() && 0 <= b < order.len() && a != b implies order[a] != order[b] by {
            assert(listing[a].0 != listing[b].0);
        }
        assert(order.no_duplicates());
        assert forall|k: Seq<char>| order.to_set().contains(k) == signatures@.dom().contains(k) by {
            if order.contains(k) {
                let j = choose|j: int| 0 <= j < order.len() && order[j] == k;
                assert(listing[j].0 == k);
                crate::dict::lemma_map_of_entry(listing, j);
            }
            if signatures@.contains_key(k) {
                let j = choose|j: int| 0 <= j < listing.len() && (#[trigger] listing[j]).0 == k;
                assert(order[j] == k);
            }
        }
        assert(order.to_set() =~= signatures@.dom());
        assert(crate::text::texts(headers@) =~= Seq::new(
            order.len(),
            |i: int| signature_header(domain@, order[i], signatures@[order[i]]),
        ));
    }
    Some(headers)
}

} // verus!
