use id3_sidecar::errors::ConvertError;
use id3_sidecar::single::ArtInput;
use id3_sidecar::single::apply_plan;
use id3_sidecar::single::extract_plan;
use id3_sidecar::tags::Frame;
use id3_sidecar::tags::PictureKind;
use id3_sidecar::tags::TagSet;

fn text_frame(id: &str, text: &str) -> Frame {
    Frame::Text { id: id.to_string(), text: text.to_string() }
}

#[test]
fn extract_uses_default_paths() {
    let ts = TagSet { frames: vec![text_frame("TIT2", "A Title")] };
    let out = extract_plan("music/song.mp3", None, None, Ok(ts)).unwrap();
    assert_eq!(out.sidecar_path, "music/song.json");
    assert!(out.art.is_none());
    let parsed = json::parse(&out.sidecar_text).unwrap();
    assert!(parsed.is_object());
    assert_eq!(parsed["TIT2"].as_str(), Some("A Title"));
    assert_eq!(parsed.entries().count(), 1);
}

#[test]
fn extract_keeps_given_paths_and_art() {
    let ts = TagSet {
        frames: vec![
            text_frame("TALB", "An Album"),
            Frame::Picture {
                mime: "image/png".to_string(),
                kind: PictureKind::Other,
                description: "".to_string(),
                data: vec![1, 2],
            },
        ],
    };
    let out = extract_plan(
        "song.mp3",
        Some("given.json".to_string()),
        Some("given.jpg".to_string()),
        Ok(ts),
    )
    .unwrap();
    assert_eq!(out.sidecar_path, "given.json");
    let (art_path, art_bytes) = out.art.unwrap();
    assert_eq!(art_path, "given.jpg");
    assert_eq!(art_bytes, vec![1, 2]);
}

#[test]
fn extract_default_art_path_uses_jpg() {
    let ts = TagSet {
        frames: vec![Frame::Picture {
            mime: "image/jpeg".to_string(),
            kind: PictureKind::FrontCover,
            description: "".to_string(),
            data: vec![3],
        }],
    };
    let out = extract_plan("a/b.mp3", None, None, Ok(ts)).unwrap();
    let (art_path, _) = out.art.unwrap();
    assert_eq!(art_path, "a/b.jpg");
}

#[test]
fn extract_reports_tag_read_failure() {
    let r = extract_plan("song.mp3", None, None, Err("bad header".to_string()));
    match r {
        Err(ConvertError::TagRead(m)) => {
            assert_eq!(m, "Unable to open id3 file: bad header");
        },
        _ => panic!("expected a tag read error"),
    }
}

#[test]
fn apply_builds_frames_from_strings() {
    let text = "{\"TIT2\": \"A Title\", \"TPE1\": \"An Artist\"}".to_string();
    let ts = apply_plan(Ok(text), ArtInput::Absent).unwrap();
    assert_eq!(ts.frames.len(), 2);
    assert!(matches!(
        &ts.frames[0],
        Frame::Text { id, text } if id == "TIT2" && text == "A Title"
    ));
    assert!(matches!(
        &ts.frames[1],
        Frame::Text { id, text } if id == "TPE1" && text == "An Artist"
    ));
}

#[test]
fn apply_ignores_non_string_values() {
    let text = "{\"a\": \"x\", \"b\": 5}".to_string();
    let ts = apply_plan(Ok(text), ArtInput::Absent).unwrap();
    assert_eq!(ts.frames.len(), 1);
    assert!(matches!(
        &ts.frames[0],
        Frame::Text { id, text } if id == "a" && text == "x"
    ));
}

#[test]
fn apply_missing_art_is_fatal() {
    let text = "{\"a\": \"x\"}".to_string();
    let r = apply_plan(Ok(text), ArtInput::Missing("/nonexistent".to_string()));
    match r {
        Err(ConvertError::MissingArt(m)) => {
            assert_eq!(m, "Provided album path does not exist: /nonexistent");
        },
        _ => panic!("expected a missing art error"),
    }
}

#[test]
fn apply_embeds_given_art() {
    let text = "{\"a\": \"x\"}".to_string();
    let ts = apply_plan(Ok(text), ArtInput::Bytes(vec![7, 7])).unwrap();
    assert_eq!(ts.frames.len(), 2);
    match &ts.frames[1] {
        Frame::Picture { mime, kind, description, data } => {
            assert_eq!(mime, "image/jpeg");
            assert!(matches!(kind, PictureKind::FrontCover));
            assert_eq!(description, "");
            assert_eq!(data, &vec![7, 7]);
        },
        _ => panic!("expected a picture frame"),
    }
}

#[test]
fn apply_rejects_malformed_json() {
    let r = apply_plan(Ok("{not json".to_string()), ArtInput::Absent);
    match r {
        Err(ConvertError::JsonParse(m)) => {
            assert!(m.starts_with("Unable to parse JSON: "));
        },
        _ => panic!("expected a parse error"),
    }
}

#[test]
fn apply_rejects_non_object_root() {
    let r = apply_plan(Ok("[1, 2]".to_string()), ArtInput::Absent);
    match r {
        Err(ConvertError::InvalidDocument) => {},
        _ => panic!("expected an invalid document error"),
    }
    let r2 = apply_plan(Ok("[1, 2]".to_string()), ArtInput::Absent);
    assert_eq!(r2.unwrap_err().message(), "No root object found");
}

#[test]
fn apply_reports_unreadable_sidecar() {
    let r = apply_plan(Err("denied".to_string()), ArtInput::Absent);
    match r {
        Err(ConvertError::Io(m)) => {
            assert_eq!(m, "Unable to open json file: denied");
        },
        _ => panic!("expected an io error"),
    }
}

#[test]
fn apply_reports_unreadable_art() {
    let text = "{\"a\": \"x\"}".to_string();
    let r = apply_plan(Ok(text), ArtInput::ReadFailed("denied".to_string()));
    match r {
        Err(ConvertError::Io(m)) => {
            assert_eq!(m, "Cannot read album art data: denied");
        },
        _ => panic!("expected an io error"),
    }
}

#[test]
fn extract_then_apply_round_trips() {
    let ts = TagSet {
        frames: vec![
            text_frame("TIT2", "A Title"),
            Frame::Picture {
                mime: "image/jpeg".to_string(),
                kind: PictureKind::FrontCover,
                description: "".to_string(),
                data: vec![1, 2, 3],
            },
        ],
    };
    let out = extract_plan("song.mp3", None, None, Ok(ts)).unwrap();
    let art = out.art.clone().map(|(_, bytes)| bytes);
    let rebuilt = apply_plan(
        Ok(out.sidecar_text.clone()),
        match art {
            Some(bytes) => ArtInput::Bytes(bytes),
            None => ArtInput::Absent,
        },
    )
    .unwrap();
    let again = extract_plan("song.mp3", None, None, Ok(rebuilt)).unwrap();
    assert_eq!(again.sidecar_text, out.sidecar_text);
    assert_eq!(again.art, out.art);
}

#[test]
fn error_messages_are_kept() {
    assert_eq!(ConvertError::TagRead("a".to_string()).message(), "a");
    assert_eq!(ConvertError::TagWrite("b".to_string()).message(), "b");
    assert_eq!(ConvertError::Io("c".to_string()).message(), "c");
    assert_eq!(ConvertError::JsonParse("d".to_string()).message(), "d");
    assert_eq!(ConvertError::MissingArt("e".to_string()).message(), "e");
    assert_eq!(ConvertError::InvalidDocument.message(), "No root object found");
}
