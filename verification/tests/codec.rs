use id3_sidecar::paths::is_audio_path;
use id3_sidecar::paths::replace_extension;
use id3_sidecar::sidecar::DocEntry;
use id3_sidecar::sidecar::SidecarDoc;
use id3_sidecar::sidecar::doc_text_pairs;
use id3_sidecar::sidecar::to_document;
use id3_sidecar::sidecar::to_tag_set;
use id3_sidecar::tags::Frame;
use id3_sidecar::tags::PictureKind;
use id3_sidecar::tags::TagSet;

fn text_frame(id: &str, text: &str) -> Frame {
    Frame::Text { id: id.to_string(), text: text.to_string() }
}

fn picture_frame(data: Vec<u8>) -> Frame {
    Frame::Picture {
        mime: "image/png".to_string(),
        kind: PictureKind::Other,
        description: "old art".to_string(),
        data,
    }
}

#[test]
fn document_keeps_text_frames_in_order() {
    let ts = TagSet {
        frames: vec![
            text_frame("TIT2", "A Title"),
            picture_frame(vec![1, 2, 3]),
            text_frame("TPE1", "An Artist"),
            Frame::Opaque { id: "PRIV".to_string() },
        ],
    };
    let doc = to_document(&ts);
    assert_eq!(doc.entries.len(), 2);
    assert_eq!(doc.entries[0].key, "TIT2");
    assert_eq!(doc.entries[0].value, Some("A Title".to_string()));
    assert_eq!(doc.entries[1].key, "TPE1");
    assert_eq!(doc.entries[1].value, Some("An Artist".to_string()));
}

#[test]
fn document_duplicate_id_keeps_first_position_last_value() {
    let ts = TagSet {
        frames: vec![
            text_frame("TIT2", "First"),
            text_frame("TPE1", "An Artist"),
            text_frame("TIT2", "Second"),
        ],
    };
    let doc = to_document(&ts);
    assert_eq!(doc.entries.len(), 2);
    assert_eq!(doc.entries[0].key, "TIT2");
    assert_eq!(doc.entries[0].value, Some("Second".to_string()));
    assert_eq!(doc.entries[1].key, "TPE1");
    assert_eq!(doc.entries[1].value, Some("An Artist".to_string()));
}

#[test]
fn round_trip_preserves_pairs() {
    let ts = TagSet {
        frames: vec![
            text_frame("TIT2", "A Title"),
            text_frame("TPE1", "An Artist"),
            text_frame("TALB", "An Album"),
        ],
    };
    let doc = to_document(&ts);
    let rebuilt = to_tag_set(&doc);
    assert_eq!(rebuilt.frames.len(), 3);
    for (frame, (id, text)) in rebuilt.frames.iter().zip(
        [("TIT2", "A Title"), ("TPE1", "An Artist"), ("TALB", "An Album")].iter(),
    ) {
        match frame {
            Frame::Text { id: got_id, text: got_text } => {
                assert_eq!(got_id, id);
                assert_eq!(got_text, text);
            },
            _ => panic!("expected a text frame"),
        }
    }
}

#[test]
fn tag_set_skips_non_string_entries() {
    let doc = SidecarDoc {
        entries: vec![
            DocEntry { key: "a".to_string(), value: Some("x".to_string()) },
            DocEntry { key: "b".to_string(), value: None },
        ],
    };
    let ts = to_tag_set(&doc);
    assert_eq!(ts.frames.len(), 1);
    assert!(matches!(
        &ts.frames[0],
        Frame::Text { id, text } if id == "a" && text == "x"
    ));
}

#[test]
fn first_picture_is_extracted() {
    let ts = TagSet {
        frames: vec![
            text_frame("TIT2", "A Title"),
            picture_frame(vec![9, 8, 7]),
            picture_frame(vec![1, 1, 1]),
        ],
    };
    assert_eq!(ts.extract_first_picture(), Some(vec![9, 8, 7]));
}

#[test]
fn no_picture_yields_none() {
    let ts = TagSet { frames: vec![text_frame("TIT2", "A Title")] };
    assert_eq!(ts.extract_first_picture(), None);
}

#[test]
fn embed_then_extract_returns_bytes() {
    let mut ts = TagSet { frames: vec![text_frame("TIT2", "A Title")] };
    ts.embed_front_cover(vec![4, 5, 6]);
    assert_eq!(ts.frames.len(), 2);
    match &ts.frames[1] {
        Frame::Picture { mime, kind, description, data } => {
            assert_eq!(mime, "image/jpeg");
            assert!(matches!(kind, PictureKind::FrontCover));
            assert_eq!(description, "");
            assert_eq!(data, &vec![4, 5, 6]);
        },
        _ => panic!("expected a picture frame"),
    }
    assert_eq!(ts.extract_first_picture(), Some(vec![4, 5, 6]));
}

#[test]
fn embedding_is_additive() {
    let mut ts = TagSet { frames: vec![picture_frame(vec![1])] };
    ts.embed_front_cover(vec![2]);
    assert_eq!(ts.frames.len(), 2);
    assert_eq!(ts.extract_first_picture(), Some(vec![1]));
}

#[test]
fn doc_text_pairs_drops_non_strings() {
    let doc = SidecarDoc {
        entries: vec![
            DocEntry { key: "a".to_string(), value: Some("x".to_string()) },
            DocEntry { key: "b".to_string(), value: None },
            DocEntry { key: "c".to_string(), value: Some("y".to_string()) },
        ],
    };
    let pairs = doc_text_pairs(&doc);
    assert_eq!(pairs, vec![("a".to_string(), "x".to_string()), ("c".to_string(), "y".to_string())]);
}

#[test]
fn extension_is_replaced() {
    assert_eq!(replace_extension("dir/song.mp3", "json"), "dir/song.json");
    assert_eq!(replace_extension("song.mp3", "jpg"), "song.jpg");
    assert_eq!(replace_extension("noext", "json"), "noext.json");
    assert_eq!(replace_extension("a.b.c", "json"), "a.b.json");
    assert_eq!(replace_extension(".hidden", "json"), ".hidden.json");
    assert_eq!(replace_extension("dot.dir/name", "jpeg"), "dot.dir/name.jpeg");
}

#[test]
fn audio_suffix_is_recognized() {
    assert!(is_audio_path("a.mp3"));
    assert!(is_audio_path("dir/b.mp3"));
    assert!(is_audio_path("oddmp3"));
    assert!(is_audio_path("mp3"));
    assert!(!is_audio_path("b.txt"));
    assert!(!is_audio_path("a.mp3.bak"));
    assert!(!is_audio_path("a.MP3"));
    assert!(!is_audio_path("m3"));
}
