use vstd::prelude::*;

verus! {

use crate::errors::ConvertError;
use crate::errors::prefixed;
use crate::jsontext::json_parse_doc;
use crate::jsontext::json_pretty_doc;
use crate::jsontext::parse_object_text;
use crate::jsontext::stringify_pairs;
use crate::paths::replace_extension;
use crate::paths::with_ext;
use crate::sidecar::collapse;
use crate::sidecar::doc_view;
use crate::sidecar::doc_text_pairs;
use crate::sidecar::lemma_text_entries_all_text;
use crate::sidecar::text_entries;
use crate::sidecar::to_document;
use crate::sidecar::to_tag_set;
use crate::tags::Frame;
use crate::tags::TagSet;
use crate::tags::first_picture;
use crate::tags::frame_text_pair;

/// What a single-file extraction should write: the serialized sidecar at
/// its path and, when the tag set holds a picture, its bytes at the art
/// path.
pub struct ExtractOutputs {
    pub sidecar_path: String,
    pub sidecar_text: String,
    pub art: Option<(String, Vec<u8>)>,
}

/// The view of an optionally given path.
pub open spec fn opt_view(o: Option<String>) -> Option<Seq<char>> {
    match o {
        Some(s) => Some(s@),
        None => None,
    }
}

/// A path as given, or derived from the audio path with extension `ext`.
pub open spec fn resolved_path(given: Option<Seq<char>>, audio: Seq<char>, ext: Seq<char>) -> Seq<
    char,
> {
    match given {
        Some(p) => p,
        None => with_ext(audio, ext),
    }
}

/// A frame sequence realizes a document: one text frame per string-valued
/// entry, in order, with that entry's key as id and its string as text.
pub open spec fn frames_match_entries(
    frames: Seq<Frame>,
    es: Seq<(Seq<char>, Option<Seq<char>>)>,
) -> bool {
    &&& frames.len() == text_entries(es).len()
    &&& forall|i: int|
        0 <= i < frames.len() ==> frame_text_pair(frames[i]) == Some(text_entries(es)[i])
}

/// Plan a single-file extraction. The caller reads the tag container at
/// `audio_path` and hands the outcome in `tags`; the plan resolves the
/// sidecar path (default: the audio path with extension `json`) and the
/// art path (default: extension `jpg`), serializes the tag set's document,
/// and pulls out the first picture's bytes. A failed tag read is the only
/// failure; this function writes nothing.
pub fn extract_plan(
    audio_path: &str,
    sidecar_path: Option<String>,
    art_path: Option<String>,
    tags: Result<TagSet, String>,
) -> (r: Result<ExtractOutputs, ConvertError>)
    ensures
        r is Ok <==> tags is Ok,
        (tags matches Err(m) ==> (r matches Err(e) && e matches ConvertError::TagRead(t) && t@
            == "Unable to open id3 file: "@ + m@)),
        (tags matches Ok(ts) ==> (r matches Ok(o) && o.sidecar_path@ == resolved_path(
            opt_view(sidecar_path),
            audio_path@,
            "json"@,
        ) && o.sidecar_text@ == json_pretty_doc(collapse(ts.frames@)) && (match first_picture(
            ts.frames@,
        ) {
            Some(bytes) => o.art matches Some(a) && a.1@ == bytes && a.0@ == resolved_path(
                opt_view(art_path),
                audio_path@,
                "jpg"@,
            ),
            None => o.art is None,
        }))),
{
    match tags {
        Err(m) => Err(
            ConvertError::TagRead(prefixed("Unable to open id3 file: ", m.as_str())),
        ),
        Ok(ts) => {
            let sp = match sidecar_path {
                Some(p) => p,
                None => replace_extension(audio_path, "json"),
            };
            let doc = to_document(&ts);
            let pairs = doc_text_pairs(&doc);
            proof {
                lemma_text_entries_all_text(collapse(ts.frames@));
            }
            let text = stringify_pairs(&pairs);
            let art = match ts.extract_first_picture() {
                Some(bytes) => {
                    let ap = match art_path {
                        Some(p) => p,
                        None => replace_extension(audio_path, "jpg"),
                    };
                    Some((ap, bytes))
                },
                None => None,
            };
            Ok(ExtractOutputs { sidecar_path: sp, sidecar_text: text, art })
        },
    }
}

/// What the caller learned about the art named for an apply operation:
/// no path was given, the given path does not exist, its bytes could not
/// be read, or its bytes.
pub enum ArtInput {
    Absent,
    Missing(String),
    ReadFailed(String),
    Bytes(Vec<u8>),
}

/// Plan a single-file apply. The caller reads the sidecar text and probes
/// the art file; the plan parses the text, requires the root to be an
/// object, builds a fresh tag set from its string-valued entries, and
/// embeds the art bytes as a front cover when they were given. A missing
/// declared art path is fatal, and the error order follows the steps:
/// sidecar read, parse, root check, then art. On success the caller
/// writes the returned tag set to the audio path; on any error nothing
/// is to be written.
pub fn apply_plan(sidecar_text: Result<String, String>, art: ArtInput) -> (r: Result<
    TagSet,
    ConvertError,
>)
    ensures
        r is Ok ==> sidecar_text is Ok,
        (sidecar_text matches Err(m) ==> (r matches Err(e) && e matches ConvertError::Io(t) && t@
            == "Unable to open json file: "@ + m@)),
        (sidecar_text matches Ok(text) ==> {
            let p = json_parse_doc(text@);
            &&& (p matches Err(pm) ==> (r matches Err(e) && e matches ConvertError::JsonParse(t)
                && t@ == "Unable to parse JSON: "@ + pm))
            &&& (p matches Ok(None) ==> r matches Err(e) && e is InvalidDocument)
            &&& (p matches Ok(Some(es)) ==> {
                &&& (art matches ArtInput::Missing(ap) ==> (r matches Err(e) && e
                    matches ConvertError::MissingArt(t) && t@
                    == "Provided album path does not exist: "@ + ap@))
                &&& (art matches ArtInput::ReadFailed(am) ==> (r matches Err(e) && e
                    matches ConvertError::Io(t) && t@ == "Cannot read album art data: "@ + am@))
                &&& (art is Absent ==> (r matches Ok(ts) && frames_match_entries(ts.frames@, es)))
                &&& (art matches ArtInput::Bytes(b) ==> (r matches Ok(ts) && ts.frames@.len()
                    == text_entries(es).len() + 1 && frames_match_entries(
                    ts.frames@.drop_last(),
                    es,
                ) && (ts.frames@.last() matches Frame::Picture { mime, kind, description, data }
                    && mime@ == "image/jpeg"@ && kind is FrontCover && description@ =~= Seq::<
                    char,
                >::empty() && data@ == b@)))
            })
        }),
{
    let text = match sidecar_text {
        Ok(t) => t,
        Err(m) => {
            return Err(ConvertError::Io(prefixed("Unable to open json file: ", m.as_str())));
        },
    };
    let doc = match parse_object_text(text.as_str()) {
        Err(m) => {
            return Err(
                ConvertError::JsonParse(prefixed("Unable to parse JSON: ", m.as_str())),
            );
        },
        Ok(None) => {
            return Err(ConvertError::InvalidDocument);
        },
        Ok(Some(d)) => d,
    };
    let mut ts = to_tag_set(&doc);
    match art {
        ArtInput::Absent => Ok(ts),
        ArtInput::Missing(p) => Err(
            ConvertError::MissingArt(
                prefixed("Provided album path does not exist: ", p.as_str()),
            ),
        ),
        ArtInput::ReadFailed(m) => Err(
            ConvertError::Io(prefixed("Cannot read album art data: ", m.as_str())),
        ),
        ArtInput::Bytes(b) => {
            let ghost before = ts.frames@;
            ts.embed_front_cover(b);
            proof {
                assert(ts.frames@.drop_last() =~= before);
            }
            Ok(ts)
        },
    }
}

} // verus!
