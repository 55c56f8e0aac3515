use vstd::prelude::*;

verus! {

use crate::sidecar::DocEntry;
use crate::sidecar::SidecarDoc;
use crate::sidecar::doc_view;
use crate::sidecar::pairs_view;

/// What `json::parse` makes of a text: a parse failure with its message,
/// a well-formed value whose root is not an object, or the root object's
/// entries in order, each value kept when it is a string.
pub uninterp spec fn json_parse_doc(s: Seq<char>) -> Result<
    Option<Seq<(Seq<char>, Option<Seq<char>>)>>,
    Seq<char>,
>;

/// Relies on json::parse: the outcome depends on the text alone. `Err`
/// carries the parser's message; `Ok(None)` says the text parsed but its
/// root is not an object; `Ok(Some(d))` lists the root object's entries
/// in order, a string value kept and any other value left absent.
#[verifier::external_body]
pub(crate) fn parse_object_text(text: &str) -> (r: Result<Option<SidecarDoc>, String>)
    ensures
        (r matches Err(m) ==> (json_parse_doc(text@) matches Err(e) && m@ == e)),
        (r matches Ok(Some(d)) ==> (json_parse_doc(text@) matches Ok(Some(es)) && doc_view(
            d.entries@,
        ) == es)),
        (r matches Ok(None) ==> (json_parse_doc(text@) matches Ok(p) && p is None)),
{
    match json::parse(text) {
        Ok(json::JsonValue::Object(obj)) => {
            let entries = obj.iter().map(
                |(k, v)| DocEntry { key: k.to_string(), value: v.as_str().map(str::to_string) },
            ).collect();
            Ok(Some(SidecarDoc { entries }))
        },
        Ok(_) => Ok(None),
        Err(e) => Err(e.to_string()),
    }
}

/// The text that `json::stringify_pretty` at indent 4 gives to an object
/// built by inserting the pairs in order.
pub uninterp spec fn json_pretty_doc(pairs: Seq<(Seq<char>, Seq<char>)>) -> Seq<char>;

/// Relies on json::stringify_pretty at indent 4, on an object built by
/// inserting the given key/value pairs in order: the text depends on the
/// pairs alone.
#[verifier::external_body]
pub(crate) fn stringify_pairs(pairs: &Vec<(String, String)>) -> (r: String)
    ensures
        r@ == json_pretty_doc(pairs_view(pairs@)),
{
    let mut obj = json::object::Object::new();
    for (k, v) in pairs.iter() {
        obj.insert(k, json::JsonValue::String(v.clone()));
    }
    json::stringify_pretty(json::JsonValue::Object(obj), 4)
}

/// The mathematical content of an aggregate: each group's key with its
/// key/value pairs.
pub open spec fn groups_view(s: Seq<(String, Vec<(String, String)>)>) -> Seq<
    (Seq<char>, Seq<(Seq<char>, Seq<char>)>),
> {
    s.map_values(|g: (String, Vec<(String, String)>)| (g.0@, pairs_view(g.1@)))
}

/// The text that `json::stringify_pretty` at indent 4 gives to an object
/// mapping each group's key to an object built from its pairs in order.
pub uninterp spec fn json_pretty_aggregate(
    groups: Seq<(Seq<char>, Seq<(Seq<char>, Seq<char>)>)>,
) -> Seq<char>;

/// Relies on json::stringify_pretty at indent 4, on an object that maps
/// each group's key to an object built from that group's pairs in order:
/// the text depends on the groups alone.
#[verifier::external_body]
pub(crate) fn stringify_groups(groups: &Vec<(String, Vec<(String, String)>)>) -> (r: String)
    ensures
        r@ == json_pretty_aggregate(groups_view(groups@)),
{
    let mut top = json::object::Object::new();
    for (path, pairs) in groups.iter() {
        let mut obj = json::object::Object::new();
        for (k, v) in pairs.iter() {
            obj.insert(k, json::JsonValue::String(v.clone()));
        }
        top.insert(path, json::JsonValue::Object(obj));
    }
    json::stringify_pretty(json::JsonValue::Object(top), 4)
}

} // verus!
