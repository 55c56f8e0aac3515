use vstd::prelude::*;

verus! {

use crate::sidecar::all_text;
use crate::sidecar::collapse;
use crate::sidecar::lemma_text_entries_all_text;
use crate::sidecar::lemma_upsert_absent;
use crate::sidecar::lemma_upsert_found;
use crate::sidecar::pairs_map;
use crate::sidecar::text_entries;
use crate::sidecar::unique_keys;
use crate::sidecar::upsert;
use crate::tags::Frame;
use crate::tags::first_picture;
use crate::tags::frame_text_pair;
use crate::tags::lemma_first_picture_push;
use crate::tags::text_map;

/// Updating the pair at the key's one position changes the induced
/// mapping like an insert of that key.
proof fn lemma_pairs_map_update(d: Seq<(Seq<char>, Seq<char>)>, j: int, k: Seq<char>, v: Seq<char>)
    requires
        0 <= j < d.len(),
        d[j].0 == k,
        forall|x: int| 0 <= x < d.len() && x != j ==> d[x].0 != k,
    ensures
        pairs_map(d.update(j, (k, v))) =~= pairs_map(d).insert(k, v),
    decreases d.len(),
{
    let u = d.update(j, (k, v));
    if j == d.len() - 1 {
        assert(u.drop_last() =~= d.drop_last());
        assert(pairs_map(d.drop_last()).insert(k, d[j].1).insert(k, v) =~= pairs_map(
            d.drop_last(),
        ).insert(k, v));
    } else {
        assert(u.drop_last() =~= d.drop_last().update(j, (k, v)));
        assert(u.last() == d.last());
        lemma_pairs_map_update(d.drop_last(), j, k, v);
        assert(d.last().0 != k);
        assert(pairs_map(d.drop_last()).insert(k, v).insert(d.last().0, d.last().1) =~= pairs_map(
            d.drop_last(),
        ).insert(d.last().0, d.last().1).insert(k, v));
    }
}

/// The document that extraction builds has unique keys and induces
/// exactly the text mapping of the frames it was built from.
pub proof fn lemma_collapse_map(frames: Seq<Frame>)
    ensures
        unique_keys(collapse(frames)),
        pairs_map(collapse(frames)) =~= text_map(frames),
    decreases frames.len(),
{
    if frames.len() == 0 {
        assert(pairs_map(collapse(frames)) =~= text_map(frames));
    } else {
        lemma_collapse_map(frames.drop_last());
        let c = collapse(frames.drop_last());
        match frame_text_pair(frames.last()) {
            Some(p) => {
                let k = p.0;
                let v = p.1;
                assert(collapse(frames) == upsert(c, k, v));
                if exists|x: int| 0 <= x < c.len() && c[x].0 == k {
                    let j = choose|x: int| 0 <= x < c.len() && c[x].0 == k;
                    assert(forall|x: int| 0 <= x < c.len() && x != j ==> c[x].0 != k);
                    lemma_upsert_found(c, k, v, j);
                    lemma_pairs_map_update(c, j, k, v);
                    assert(forall|x: int|
                        0 <= x < c.len() ==> c.update(j, (k, v))[x].0 == c[x].0);
                    assert(unique_keys(collapse(frames)));
                } else {
                    assert(forall|x: int| 0 <= x < c.len() ==> c[x].0 != k);
                    lemma_upsert_absent(c, k, v);
                    assert(c.push((k, v)).drop_last() =~= c);
                    assert(c.push((k, v)).last() == (k, v));
                    assert(unique_keys(collapse(frames)));
                }
                assert(pairs_map(collapse(frames)) =~= text_map(frames));
            },
            None => {
                assert(pairs_map(collapse(frames)) =~= text_map(frames));
            },
        }
    }
}

/// Frames that realize the given pairs, one text frame each in order,
/// induce the same mapping as the pairs.
proof fn lemma_text_map_matching(frames: Seq<Frame>, pairs: Seq<(Seq<char>, Seq<char>)>)
    requires
        frames.len() == pairs.len(),
        forall|i: int| 0 <= i < frames.len() ==> frame_text_pair(frames[i]) == Some(pairs[i]),
    ensures
        text_map(frames) =~= pairs_map(pairs),
    decreases frames.len(),
{
    if frames.len() > 0 {
        assert(forall|i: int|
            0 <= i < frames.len() - 1 ==> frame_text_pair(frames.drop_last()[i]) == Some(
                pairs.drop_last()[i],
            ));
        lemma_text_map_matching(frames.drop_last(), pairs.drop_last());
        assert(frame_text_pair(frames.last()) == Some(pairs.last()));
    }
}

/// Frames that realize unique-keyed pairs collapse back to those pairs.
proof fn lemma_collapse_matching(frames: Seq<Frame>, pairs: Seq<(Seq<char>, Seq<char>)>)
    requires
        frames.len() == pairs.len(),
        forall|i: int| 0 <= i < frames.len() ==> frame_text_pair(frames[i]) == Some(pairs[i]),
        unique_keys(pairs),
    ensures
        collapse(frames) =~= pairs,
    decreases frames.len(),
{
    if frames.len() == 0 {
        assert(collapse(frames) =~= pairs);
    } else {
        assert(forall|i: int|
            0 <= i < frames.len() - 1 ==> frame_text_pair(frames.drop_last()[i]) == Some(
                pairs.drop_last()[i],
            ));
        lemma_collapse_matching(frames.drop_last(), pairs.drop_last());
        assert(frame_text_pair(frames.last()) == Some(pairs.last()));
        let k = pairs.last().0;
        let v = pairs.last().1;
        assert(collapse(frames) == upsert(collapse(frames.drop_last()), k, v));
        assert(forall|x: int|
            0 <= x < pairs.drop_last().len() ==> pairs.drop_last()[x].0 != k);
        lemma_upsert_absent(collapse(frames.drop_last()), k, v);
        assert(collapse(frames) =~= pairs.drop_last().push((k, v)));
        assert(pairs.drop_last().push((k, v)) =~= pairs);
    }
}

/// A sequence of text frames holds no picture.
proof fn lemma_no_picture_among_text(frames: Seq<Frame>)
    requires
        forall|i: int| 0 <= i < frames.len() ==> frames[i] is Text,
    ensures
        first_picture(frames) is None,
    decreases frames.len(),
{
    if frames.len() > 0 {
        assert(frames.first() is Text);
        assert(forall|i: int| 0 <= i < frames.drop_first().len() ==> frames.drop_first()[i] is Text);
        lemma_no_picture_among_text(frames.drop_first());
    }
}

/// Round trip: a tag set rebuilt from an extracted document induces the
/// same text key/value mapping as the tag set it was extracted from.
/// Every pair is preserved, order-insensitively, the last value of a
/// repeated frame id winning. The hypotheses are exactly what
/// `to_document` and `to_tag_set` ensure of `doc` and `rebuilt`.
pub proof fn round_trip_preserves_text_map(
    frames: Seq<Frame>,
    doc: Seq<(Seq<char>, Option<Seq<char>>)>,
    rebuilt: Seq<Frame>,
)
    requires
        doc == all_text(collapse(frames)),
        rebuilt.len() == text_entries(doc).len(),
        forall|i: int|
            0 <= i < rebuilt.len() ==> frame_text_pair(rebuilt[i]) == Some(text_entries(doc)[i]),
    ensures
        text_map(rebuilt) == text_map(frames),
{
    lemma_text_entries_all_text(collapse(frames));
    lemma_text_map_matching(rebuilt, collapse(frames));
    lemma_collapse_map(frames);
    assert(text_map(rebuilt) =~= text_map(frames));
}

/// Extract-then-apply idempotence: rebuild a tag set from an extracted
/// document, embed the extracted art when there was any, and extract
/// again — the same document (key for key, in order) and the same art
/// bytes come back. The hypotheses are exactly what `to_document`,
/// `to_tag_set` and `embed_front_cover` ensure of `doc`, `rebuilt` and
/// `applied`; what the serialized text adds or strips is outside them.
pub proof fn extract_apply_extract_identity(
    frames: Seq<Frame>,
    doc: Seq<(Seq<char>, Option<Seq<char>>)>,
    rebuilt: Seq<Frame>,
    art: Option<Seq<u8>>,
    applied: Seq<Frame>,
)
    requires
        doc == all_text(collapse(frames)),
        rebuilt.len() == text_entries(doc).len(),
        forall|i: int|
            0 <= i < rebuilt.len() ==> frame_text_pair(rebuilt[i]) == Some(text_entries(doc)[i]),
        art == first_picture(frames),
        (art matches Some(bytes) ==> applied.len() == rebuilt.len() + 1 && applied.drop_last()
            == rebuilt && (applied.last() matches Frame::Picture { data, .. } && data@ == bytes)),
        (art is None ==> applied == rebuilt),
    ensures
        collapse(applied) == collapse(frames),
        first_picture(applied) == art,
{
    lemma_text_entries_all_text(collapse(frames));
    lemma_collapse_map(frames);
    lemma_collapse_matching(rebuilt, collapse(frames));
    assert(forall|i: int| 0 <= i < rebuilt.len() ==> rebuilt[i] is Text);
    lemma_no_picture_among_text(rebuilt);
    match art {
        Some(bytes) => {
            assert(applied =~= rebuilt.push(applied.last()));
            assert(frame_text_pair(applied.last()) is None);
            assert(collapse(applied) == collapse(applied.drop_last()));
            assert(collapse(applied) =~= collapse(frames));
            lemma_first_picture_push(rebuilt, applied.last());
            assert(first_picture(applied) == Some(bytes));
        },
        None => {
            assert(collapse(applied) =~= collapse(frames));
        },
    }
}

} // verus!
