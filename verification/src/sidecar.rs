use vstd::prelude::*;

verus! {

use crate::tags::Frame;
use crate::tags::TagSet;
use crate::tags::frame_text_pair;

/// One entry of a sidecar document: a key, and either the string value
/// it maps to or nothing when the document held a non-string value there.
#[derive(Debug)]
pub struct DocEntry {
    pub key: String,
    pub value: Option<String>,
}

/// A flat key/value document: the sidecar representation of a tag set.
#[derive(Debug)]
pub struct SidecarDoc {
    pub entries: Vec<DocEntry>,
}

/// The mathematical content of one entry.
pub open spec fn entry_view(e: DocEntry) -> (Seq<char>, Option<Seq<char>>) {
    (
        e.key@,
        match e.value {
            Some(s) => Some(s@),
            None => None,
        },
    )
}

/// The mathematical content of a document's entries, in order.
pub open spec fn doc_view(entries: Seq<DocEntry>) -> Seq<(Seq<char>, Option<Seq<char>>)> {
    entries.map_values(|e: DocEntry| entry_view(e))
}

/// The mathematical content of a sequence of key/value string pairs.
pub open spec fn pairs_view(s: Seq<(String, String)>) -> Seq<(Seq<char>, Seq<char>)> {
    s.map_values(|p: (String, String)| (p.0@, p.1@))
}

/// No two entries share a key.
pub open spec fn unique_keys<V>(d: Seq<(Seq<char>, V)>) -> bool {
    forall|i: int, j: int| 0 <= i < j < d.len() ==> d[i].0 != d[j].0
}

/// Insert under mapping semantics: when the key is already present its
/// value is replaced in place (at the first position holding it),
/// otherwise the pair is appended.
pub open spec fn upsert<V>(d: Seq<(Seq<char>, V)>, k: Seq<char>, v: V) -> Seq<(Seq<char>, V)>
    decreases d.len(),
{
    if d.len() == 0 {
        seq![(k, v)]
    } else if d.first().0 == k {
        seq![(k, v)] + d.drop_first()
    } else {
        seq![d.first()] + upsert(d.drop_first(), k, v)
    }
}

/// When the key stands at position `j` and nowhere earlier, `upsert`
/// is an update in place at `j`.
pub proof fn lemma_upsert_found<V>(d: Seq<(Seq<char>, V)>, k: Seq<char>, v: V, j: int)
    requires
        0 <= j < d.len(),
        d[j].0 == k,
        forall|x: int| 0 <= x < j ==> d[x].0 != k,
    ensures
        upsert(d, k, v) =~= d.update(j, (k, v)),
    decreases d.len(),
{
    if j == 0 {
        assert(upsert(d, k, v) =~= d.update(0, (k, v)));
    } else {
        assert(d.first().0 != k) by {
            assert(d[0].0 != k);
        }
        lemma_upsert_found(d.drop_first(), k, v, j - 1);
        assert(upsert(d, k, v) =~= d.update(j, (k, v)));
    }
}

/// When the key stands nowhere in the sequence, `upsert` appends.
pub proof fn lemma_upsert_absent<V>(d: Seq<(Seq<char>, V)>, k: Seq<char>, v: V)
    requires
        forall|x: int| 0 <= x < d.len() ==> d[x].0 != k,
    ensures
        upsert(d, k, v) =~= d.push((k, v)),
    decreases d.len(),
{
    if d.len() == 0 {
        assert(upsert(d, k, v) =~= d.push((k, v)));
    } else {
        assert(d.first().0 != k) by {
            assert(d[0].0 != k);
        }
        lemma_upsert_absent(d.drop_first(), k, v);
        assert(upsert(d, k, v) =~= d.push((k, v)));
    }
}

/// The pair sequence that extraction builds from a frame sequence: each
/// text frame's id/text pair inserted in order under mapping semantics,
/// so a repeated id keeps its first position and its last value.
pub open spec fn collapse(frames: Seq<Frame>) -> Seq<(Seq<char>, Seq<char>)>
    decreases frames.len(),
{
    if frames.len() == 0 {
        Seq::empty()
    } else {
        match frame_text_pair(frames.last()) {
            Some(p) => upsert(collapse(frames.drop_last()), p.0, p.1),
            None => collapse(frames.drop_last()),
        }
    }
}

/// A pair for each entry that carries a string value, in order.
pub open spec fn text_entries(d: Seq<(Seq<char>, Option<Seq<char>>)>) -> Seq<
    (Seq<char>, Seq<char>),
>
    decreases d.len(),
{
    if d.len() == 0 {
        Seq::empty()
    } else {
        let rest = text_entries(d.drop_last());
        match d.last().1 {
            Some(t) => rest.push((d.last().0, t)),
            None => rest,
        }
    }
}

/// A string-valued pair, seen as a document entry.
pub open spec fn as_text_value(p: (Seq<char>, Seq<char>)) -> (Seq<char>, Option<Seq<char>>) {
    (p.0, Some(p.1))
}

/// A pair sequence, seen as a document whose values are all strings.
pub open spec fn all_text(d: Seq<(Seq<char>, Seq<char>)>) -> Seq<(Seq<char>, Option<Seq<char>>)> {
    d.map_values(|p: (Seq<char>, Seq<char>)| as_text_value(p))
}

/// On a document whose values are all strings, `text_entries` gives back
/// exactly the underlying pairs.
pub proof fn lemma_text_entries_all_text(d: Seq<(Seq<char>, Seq<char>)>)
    ensures
        text_entries(all_text(d)) =~= d,
    decreases d.len(),
{
    if d.len() == 0 {
        assert(all_text(d) =~= Seq::<(Seq<char>, Option<Seq<char>>)>::empty());
    } else {
        lemma_text_entries_all_text(d.drop_last());
        assert(all_text(d).drop_last() =~= all_text(d.drop_last()));
        assert(all_text(d).last() == as_text_value(d.last()));
    }
}

/// The key/value mapping a pair sequence induces, the last pair of a
/// given key winning.
pub open spec fn pairs_map(d: Seq<(Seq<char>, Seq<char>)>) -> Map<Seq<char>, Seq<char>>
    decreases d.len(),
{
    if d.len() == 0 {
        Map::empty()
    } else {
        pairs_map(d.drop_last()).insert(d.last().0, d.last().1)
    }
}

/// Map a tag set to a sidecar document: every text frame contributes its
/// id as a key and its text as the value; a frame whose id was already
/// seen replaces that key's value in place, so the last value wins while
/// key order follows first encounter. Frames without textual content are
/// skipped silently.
pub fn to_document(ts: &TagSet) -> (d: SidecarDoc)
    ensures
        doc_view(d.entries@) =~= all_text(collapse(ts.frames@)),
        unique_keys(doc_view(d.entries@)),
{
    let mut entries: Vec<DocEntry> = Vec::new();
    let n: usize = ts.frames.len();
    let mut i: usize = 0;
    proof {
        assert(ts.frames@.subrange(0, 0) =~= Seq::<Frame>::empty());
        assert(doc_view(entries@) =~= all_text(collapse(ts.frames@.subrange(0, 0))));
    }
    while i < n
        invariant
            n == ts.frames@.len(),
            i <= n,
            doc_view(entries@) =~= all_text(collapse(ts.frames@.subrange(0, i as int))),
            unique_keys(doc_view(entries@)),
        decreases n - i,
    {
        proof {
            assert(ts.frames@.subrange(0, i + 1).drop_last() =~= ts.frames@.subrange(0, i as int));
            assert(ts.frames@.subrange(0, i + 1).last() == ts.frames@[i as int]);
        }
        match &ts.frames[i] {
            Frame::Text { id, text } => {
                let m: usize = entries.len();
                let mut j: usize = 0;
                let mut found: bool = false;
                while j < m && !found
                    invariant
                        m == entries@.len(),
                        j <= m,
                        !found ==> forall|k: int| 0 <= k < j ==> entries@[k].key@ != id@,
                        found ==> j < m && entries@[j as int].key@ == id@,
                    decreases m - j + (if found { 0int } else { 1int }),
                {
                    if entries[j].key == *id {
                        found = true;
                    } else {
                        j = j + 1;
                    }
                }
                let new_entry = DocEntry { key: id.clone(), value: Some(text.clone()) };
                let ghost es = entries@;
                let ghost pre = doc_view(es);
                let ghost c = collapse(ts.frames@.subrange(0, i as int));
                let ghost k = id@;
                let ghost v = text@;
                proof {
                    assert(frame_text_pair(ts.frames@[i as int]) == Some((k, v)));
                    assert(collapse(ts.frames@.subrange(0, i + 1)) == upsert(c, k, v));
                    assert(pre == all_text(c));
                    assert(forall|x: int| 0 <= x < es.len() ==> pre[x] == entry_view(es[x]));
                    assert(forall|x: int|
                        0 <= x < c.len() ==> all_text(c)[x] == as_text_value(c[x]));
                    assert(pre.len() == c.len());
                }
                if found {
                    entries.set(j, new_entry);
                    proof {
                        assert(pre[j as int].0 == k);
                        assert(c[j as int].0 == k);
                        assert(forall|x: int| 0 <= x < j ==> c[x].0 != k) by {
                            assert(forall|x: int| 0 <= x < j ==> pre[x].0 != k);
                            assert(forall|x: int| 0 <= x < c.len() ==> pre[x].0 == c[x].0);
                        }
                        lemma_upsert_found(c, k, v, j as int);
                        assert(doc_view(entries@) =~= pre.update(j as int, (k, Some(v))));
                        assert(doc_view(entries@) =~= all_text(c.update(j as int, (k, v))));
                        assert(unique_keys(doc_view(entries@)));
                    }
                } else {
                    entries.push(new_entry);
                    proof {
                        assert(forall|x: int| 0 <= x < pre.len() ==> pre[x].0 != k);
                        assert(forall|x: int| 0 <= x < c.len() ==> c[x].0 != k) by {
                            assert(forall|x: int|
                                0 <= x < c.len() ==> pre[x].0 == c[x].0);
                        }
                        lemma_upsert_absent(c, k, v);
                        assert(doc_view(entries@) =~= pre.push((k, Some(v))));
                        assert(doc_view(entries@) =~= all_text(c.push((k, v))));
                        assert(unique_keys(doc_view(entries@)));
                    }
                }
            },
            _ => {
                proof {
                    assert(doc_view(entries@) =~= all_text(
                        collapse(ts.frames@.subrange(0, i + 1)),
                    ));
                }
            },
        }
        i = i + 1;
    }
    proof {
        assert(ts.frames@.subrange(0, n as int) =~= ts.frames@);
    }
    SidecarDoc { entries }
}

/// Build a tag set from a sidecar document: every entry carrying a
/// string value becomes a text frame with the key as id and the string
/// as content, in order; entries whose value is not a string are ignored
/// silently.
pub fn to_tag_set(d: &SidecarDoc) -> (r: TagSet)
    ensures
        r.frames@.len() == text_entries(doc_view(d.entries@)).len(),
        forall|i: int|
            0 <= i < r.frames@.len() ==> frame_text_pair(r.frames@[i]) == Some(
                text_entries(doc_view(d.entries@))[i],
            ),
{
    let mut frames: Vec<Frame> = Vec::new();
    let n: usize = d.entries.len();
    let mut i: usize = 0;
    proof {
        assert(doc_view(d.entries@.subrange(0, 0)) =~= Seq::<
            (Seq<char>, Option<Seq<char>>),
        >::empty());
    }
    while i < n
        invariant
            n == d.entries@.len(),
            i <= n,
            frames@.len() == text_entries(doc_view(d.entries@.subrange(0, i as int))).len(),
            forall|k: int|
                0 <= k < frames@.len() ==> frame_text_pair(frames@[k]) == Some(
                    text_entries(doc_view(d.entries@.subrange(0, i as int)))[k],
                ),
        decreases n - i,
    {
        proof {
            assert(doc_view(d.entries@.subrange(0, i + 1)).drop_last() =~= doc_view(
                d.entries@.subrange(0, i as int),
            ));
            assert(doc_view(d.entries@.subrange(0, i + 1)).last() == entry_view(
                d.entries@[i as int],
            ));
        }
        match &d.entries[i].value {
            Some(t) => {
                frames.push(Frame::Text { id: d.entries[i].key.clone(), text: t.clone() });
            },
            None => {},
        }
        i = i + 1;
    }
    proof {
        assert(d.entries@.subrange(0, n as int) =~= d.entries@);
    }
    TagSet { frames }
}

/// The key/value pairs of the entries that carry a string value, in
/// order: the flat form handed to serialization.
pub fn doc_text_pairs(d: &SidecarDoc) -> (r: Vec<(String, String)>)
    ensures
        pairs_view(r@) =~= text_entries(doc_view(d.entries@)),
{
    let mut pairs: Vec<(String, String)> = Vec::new();
    let n: usize = d.entries.len();
    let mut i: usize = 0;
    proof {
        assert(doc_view(d.entries@.subrange(0, 0)) =~= Seq::<
            (Seq<char>, Option<Seq<char>>),
        >::empty());
    }
    while i < n
        invariant
            n == d.entries@.len(),
            i <= n,
            pairs_view(pairs@) =~= text_entries(doc_view(d.entries@.subrange(0, i as int))),
        decreases n - i,
    {
        proof {
            assert(doc_view(d.entries@.subrange(0, i + 1)).drop_last() =~= doc_view(
                d.entries@.subrange(0, i as int),
            ));
            assert(doc_view(d.entries@.subrange(0, i + 1)).last() == entry_view(
                d.entries@[i as int],
            ));
        }
        match &d.entries[i].value {
            Some(t) => {
                pairs.push((d.entries[i].key.clone(), t.clone()));
            },
            None => {},
        }
        i = i + 1;
    }
    proof {
        assert(d.entries@.subrange(0, n as int) =~= d.entries@);
    }
    pairs
}

} // verus!
