use vstd::prelude::*;

verus! {

/// Classification of a picture frame; the embedding logic only ever
/// writes the front-cover classification.
#[derive(Debug)]
pub enum PictureKind {
    FrontCover,
    Other,
}

/// One frame of a tag container: textual content under a short frame id,
/// an embedded picture, or content this library does not read.
#[derive(Debug)]
pub enum Frame {
    Text { id: String, text: String },
    Picture { mime: String, kind: PictureKind, description: String, data: Vec<u8> },
    Opaque { id: String },
}

/// An ordered collection of frames, as read from or written to an audio
/// file's tag container.
#[derive(Debug)]
pub struct TagSet {
    pub frames: Vec<Frame>,
}

/// The id and text of a frame, when it has textual content.
pub open spec fn frame_text_pair(f: Frame) -> Option<(Seq<char>, Seq<char>)> {
    match f {
        Frame::Text { id, text } => Some((id@, text@)),
        _ => None,
    }
}

/// The key/value mapping that a frame sequence's text frames induce,
/// the last frame of a given id winning.
pub open spec fn text_map(frames: Seq<Frame>) -> Map<Seq<char>, Seq<char>>
    decreases frames.len(),
{
    if frames.len() == 0 {
        Map::empty()
    } else {
        match frame_text_pair(frames.last()) {
            Some(p) => text_map(frames.drop_last()).insert(p.0, p.1),
            None => text_map(frames.drop_last()),
        }
    }
}

/// The bytes of the first picture frame, if any.
pub open spec fn first_picture(frames: Seq<Frame>) -> Option<Seq<u8>>
    decreases frames.len(),
{
    if frames.len() == 0 {
        None
    } else {
        match frames.first() {
            Frame::Picture { data, .. } => Some(data@),
            _ => first_picture(frames.drop_first()),
        }
    }
}

impl TagSet {
    /// A tag set with no frames.
    pub fn new() -> (r: TagSet)
        ensures
            r.frames@ =~= Seq::<Frame>::empty(),
    {
        TagSet { frames: Vec::new() }
    }

    /// The raw bytes of the first picture frame present, or nothing when
    /// the tag set holds no picture. Never fails.
    pub fn extract_first_picture(&self) -> (r: Option<Vec<u8>>)
        ensures
            match r {
                Some(d) => first_picture(self.frames@) == Some(d@),
                None => first_picture(self.frames@) is None,
            },
    {
        let n = self.frames.len();
        let mut i: usize = 0;
        proof {
            assert(self.frames@.skip(0) =~= self.frames@);
        }
        while i < n
            invariant
                n == self.frames@.len(),
                i <= n,
                first_picture(self.frames@) == first_picture(self.frames@.skip(i as int)),
            decreases n - i,
        {
            proof {
                assert(self.frames@.skip(i as int).first() == self.frames@[i as int]);
                assert(self.frames@.skip(i as int).drop_first() =~= self.frames@.skip(i + 1));
            }
            match &self.frames[i] {
                Frame::Picture { data, .. } => {
                    let mut out: Vec<u8> = Vec::new();
                    let m = data.len();
                    let mut j: usize = 0;
                    while j < m
                        invariant
                            m == data@.len(),
                            j <= m,
                            out@ =~= data@.subrange(0, j as int),
                        decreases m - j,
                    {
                        out.push(data[j]);
                        j = j + 1;
                    }
                    proof {
                        assert(out@ =~= data@);
                    }
                    return Some(out);
                },
                _ => {},
            }
            i = i + 1;
        }
        proof {
            assert(self.frames@.skip(n as int) =~= Seq::<Frame>::empty());
        }
        None
    }

    /// Add one picture frame classified as front cover, with MIME type
    /// `image/jpeg`, an empty description and the given bytes. Additive:
    /// pre-existing picture frames are left in place.
    pub fn embed_front_cover(&mut self, data: Vec<u8>)
        ensures
            final(self).frames@.len() == old(self).frames@.len() + 1,
            final(self).frames@.drop_last() =~= old(self).frames@,
            (final(self).frames@.last() matches Frame::Picture { mime, kind, description, data: d }
                && mime@ == "image/jpeg"@
                && kind is FrontCover
                && description@ =~= Seq::<char>::empty()
                && d@ == data@),
    {
        let mime = "image/jpeg".to_owned();
        let description = "".to_owned();
        proof {
            reveal_strlit("");
        }
        self.frames.push(Frame::Picture { mime, kind: PictureKind::FrontCover, description, data });
        proof {
            assert(self.frames@.drop_last() =~= old(self).frames@);
        }
    }
}

/// Pushing a picture frame onto a picture-free tag set makes that frame
/// the first picture.
pub proof fn lemma_first_picture_push(frames: Seq<Frame>, f: Frame)
    requires
        first_picture(frames) is None,
        f is Picture,
    ensures
        (f matches Frame::Picture { data, .. } ==> first_picture(frames.push(f)) == Some(data@)),
    decreases frames.len(),
{
    if frames.len() == 0 {
        assert(frames.push(f).first() == f);
    } else {
        assert(frames.push(f).first() == frames.first());
        assert(frames.push(f).drop_first() =~= frames.drop_first().push(f));
        lemma_first_picture_push(frames.drop_first(), f);
    }
}

} // verus!
