use vstd::prelude::*;
use vstd::string::*;
use crate::multimap::{map_to_vec, pairs_view, spec_flatten, Multimap};

verus! {

#[verifier::external_type_specification]
#[verifier::external_body]
pub struct ExJson(rustc_serialize::json::Json);

/// A request body as the caller hands it over: form fields to be
/// percent-encoded, or a JSON value to be serialized.
pub enum Body {
    FormUrlEncoded(Multimap),
    JSON(rustc_serialize::json::Json),
}

/// What the form serializer returns for a list of key-value pairs.
pub uninterp spec fn form_encoded_of(pairs: Seq<(Seq<char>, Seq<char>)>) -> Seq<u8>;

/// Relies on url::form_urlencoded::Serializer: percent-encodes the
/// pairs as application/x-www-form-urlencoded text, a function of the
/// pairs alone.
#[verifier::external_body]
fn form_encode(pairs: &Vec<(String, String)>) -> (r: Vec<u8>)
    ensures
        r@ == form_encoded_of(pairs_view(pairs@)),
{
    let mut ser = url::form_urlencoded::Serializer::new(String::new());
    for p in pairs.iter() {
        ser.append_pair(p.0.as_str(), p.1.as_str());
    }
    ser.finish().into_bytes()
}

/// Relies on rustc_serialize's Display for Json, which writes the
/// compact JSON encoding; writing into a String cannot fail, so the
/// call cannot panic.
#[verifier::external_body]
fn json_encode(j: &rustc_serialize::json::Json) -> (r: Vec<u8>) {
    j.to_string().into_bytes()
}

/// The Content-Type header value a body calls for, if one is present.
pub fn get_body_contenttype(rodata: &Option<Body>) -> (r: Option<&'static str>)
    ensures
        rodata is None ==> r is None,
        rodata matches Some(Body::FormUrlEncoded(m)) ==> (r matches Some(c) && c@
            == "application/x-www-formurlencoded"@),
        rodata matches Some(Body::JSON(j)) ==> (r matches Some(c) && c@ == "application/json"@),
{
    match rodata {
        Some(body) => {
            match body {
                Body::FormUrlEncoded(_) => Some("application/x-www-formurlencoded"),
                Body::JSON(_) => Some("application/json"),
            }
        },
        None => None,
    }
}

/// Serialize a body to the bytes that go on the wire. For form data
/// the bytes are the percent-encoding of the flattened pairs; for JSON
/// they are whatever the serializer produced.
pub fn encode_body(data: Body) -> (r: Vec<u8>)
    ensures
        data matches Body::FormUrlEncoded(m) ==> r@ == form_encoded_of(spec_flatten(m@)),
{
    match data {
        Body::FormUrlEncoded(map) => {
            let vec = map_to_vec(map);
            form_encode(&vec)
        },
        Body::JSON(j) => json_encode(&j),
    }
}

} // verus!
