use vstd::prelude::*;

verus! {

use vstd::string::StrSliceExecFns;
use vstd::string::StringExecFns;
use crate::jsontext::groups_view;
use crate::jsontext::json_pretty_aggregate;
use crate::jsontext::json_pretty_doc;
use crate::jsontext::stringify_groups;
use crate::jsontext::stringify_pairs;
use crate::paths::replace_extension;
use crate::paths::with_ext;
use crate::sidecar::collapse;
use crate::sidecar::doc_text_pairs;
use crate::sidecar::lemma_text_entries_all_text;
use crate::sidecar::lemma_upsert_absent;
use crate::sidecar::lemma_upsert_found;
use crate::sidecar::pairs_view;
use crate::sidecar::to_document;
use crate::sidecar::unique_keys;
use crate::sidecar::upsert;
use crate::tags::TagSet;
use crate::tags::first_picture;

/// The state of one batch extraction: the worklist of paths still to
/// visit (a stack, its last element next), the aggregate accumulated so
/// far, and the run's two flags. The surrounding application drives it:
/// it pops a path with `next_path`, probes the filesystem, and reports
/// what it found through `enter_directory` and `on_file`, performing the
/// writes each step asks for.
pub struct BatchRun {
    pub pending: Vec<String>,
    pub aggregate: Vec<(String, Vec<(String, String)>)>,
    pub aggregate_output: bool,
    pub recurse: bool,
}

/// What a processed audio file asks the application to do. Art, when
/// present, is written first; a failure of either write is fatal to the
/// whole run.
pub struct FileOutputs {
    pub art: Option<(String, Vec<u8>)>,
    pub sidecar: Option<(String, String)>,
}

/// The outcome of one audio file: a message for the error stream when
/// its tag container could not be read (the traversal goes on), or the
/// writes to perform.
pub enum FileStep {
    Skip(String),
    Outputs(FileOutputs),
}

impl BatchRun {
    /// The aggregate never holds two groups under one path.
    pub open spec fn wf(self) -> bool {
        unique_keys(groups_view(self.aggregate@))
    }

    /// A fresh run over the given input paths, visited in order.
    pub fn new(inputs: Vec<String>, aggregate_output: bool, recurse: bool) -> (r: BatchRun)
        ensures
            r.pending@ =~= inputs@.reverse(),
            r.aggregate@ =~= Seq::<(String, Vec<(String, String)>)>::empty(),
            r.aggregate_output == aggregate_output,
            r.recurse == recurse,
            r.wf(),
    {
        let pending = reversed(inputs);
        BatchRun { pending, aggregate: Vec::new(), aggregate_output, recurse }
    }

    /// The next path to visit, if any is left.
    pub fn next_path(&mut self) -> (r: Option<String>)
        ensures
            final(self).aggregate@ =~= old(self).aggregate@,
            final(self).aggregate_output == old(self).aggregate_output,
            final(self).recurse == old(self).recurse,
            (old(self).pending@.len() == 0 ==> r is None && final(self).pending@ =~= old(
                self,
            ).pending@),
            (old(self).pending@.len() > 0 ==> (r matches Some(p) && p == old(self).pending@.last()
                && final(self).pending@ =~= old(self).pending@.drop_last())),
            old(self).wf() ==> final(self).wf(),
    {
        self.pending.pop()
    }

    /// The visited path was a directory: when the run recurses, its
    /// entries are visited next, in order, before the rest of the
    /// worklist; otherwise the directory is skipped.
    pub fn enter_directory(&mut self, entries: Vec<String>)
        ensures
            final(self).aggregate@ =~= old(self).aggregate@,
            final(self).aggregate_output == old(self).aggregate_output,
            final(self).recurse == old(self).recurse,
            (old(self).recurse ==> final(self).pending@ =~= old(self).pending@
                + entries@.reverse()),
            (!old(self).recurse ==> final(self).pending@ =~= old(self).pending@),
            old(self).wf() ==> final(self).wf(),
    {
        if self.recurse {
            let mut rest = entries;
            let ghost orig = rest@;
            let ghost pend = self.pending@;
            while rest.len() > 0
                invariant
                    rest@.len() <= orig.len(),
                    rest@ =~= orig.subrange(0, rest@.len() as int),
                    self.pending@ =~= pend + orig.subrange(
                        rest@.len() as int,
                        orig.len() as int,
                    ).reverse(),
                    self.aggregate@ =~= old(self).aggregate@,
                    self.aggregate_output == old(self).aggregate_output,
                    self.recurse == old(self).recurse,
                decreases rest@.len(),
            {
                let ghost k = rest@.len() as int;
                let s = match rest.pop() {
                    Some(s) => s,
                    None => {
                        proof {
                            assert(false);
                        }
                        return ;
                    },
                };
                self.pending.push(s);
                proof {
                    let n = orig.len() as int;
                    assert(orig.subrange(0, k).drop_last() =~= orig.subrange(0, k - 1));
                    assert(rest@ =~= orig.subrange(0, k - 1));
                    assert(s == orig[k - 1]);
                    assert(orig.subrange(k - 1, n).reverse() =~= orig.subrange(
                        k,
                        n,
                    ).reverse().push(orig[k - 1]));
                    assert(self.pending@ =~= pend + orig.subrange(k - 1, n).reverse());
                }
            }
            proof {
                assert(self.pending@ =~= pend + orig.reverse());
            }
        }
    }

    /// One audio file, with the outcome of reading its tag container. A
    /// read failure yields a message and leaves the run unchanged. A read
    /// tag set yields the file's outputs: its first picture's bytes at
    /// the path with extension `jpeg`, and its document either inserted
    /// into the aggregate under the file's path (aggregate mode, in which
    /// case no sidecar is written) or serialized at the path with
    /// extension `json`.
    pub fn on_file(&mut self, path: &str, tags: Result<TagSet, String>) -> (r: FileStep)
        requires
            old(self).wf(),
        ensures
            final(self).wf(),
            final(self).pending@ =~= old(self).pending@,
            final(self).aggregate_output == old(self).aggregate_output,
            final(self).recurse == old(self).recurse,
            (tags matches Err(m) ==> (r matches FileStep::Skip(s) && s@ == "Could not handle "@
                + path@ + ": "@ + m@ && final(self).aggregate@ =~= old(self).aggregate@)),
            (tags matches Ok(ts) ==> (r matches FileStep::Outputs(o) && (match first_picture(
                ts.frames@,
            ) {
                Some(bytes) => o.art matches Some(a) && a.0@ == with_ext(path@, "jpeg"@) && a.1@
                    == bytes,
                None => o.art is None,
            }) && (old(self).aggregate_output ==> o.sidecar is None && groups_view(
                final(self).aggregate@,
            ) =~= upsert(groups_view(old(self).aggregate@), path@, collapse(ts.frames@))) && (
            !old(self).aggregate_output ==> (o.sidecar matches Some(sc) && sc.0@ == with_ext(
                path@,
                "json"@,
            ) && sc.1@ == json_pretty_doc(collapse(ts.frames@)) && final(self).aggregate@ =~= old(
                self,
            ).aggregate@)))),
    {
        let ts = match tags {
            Ok(t) => t,
            Err(m) => {
                let mut s = "Could not handle ".to_owned();
                s.append(path);
                s.append(": ");
                s.append(m.as_str());
                return FileStep::Skip(s);
            },
        };
        let doc = to_document(&ts);
        let pairs = doc_text_pairs(&doc);
        proof {
            lemma_text_entries_all_text(collapse(ts.frames@));
        }
        let art = match ts.extract_first_picture() {
            Some(bytes) => Some((replace_extension(path, "jpeg"), bytes)),
            None => None,
        };
        if self.aggregate_output {
            self.insert_aggregate(path, pairs);
            FileStep::Outputs(FileOutputs { art, sidecar: None })
        } else {
            let text = stringify_pairs(&pairs);
            FileStep::Outputs(
                FileOutputs { art, sidecar: Some((replace_extension(path, "json"), text)) },
            )
        }
    }

    /// Insert a file's pairs into the aggregate under its path: replaced
    /// in place when the path is already present, appended otherwise.
    fn insert_aggregate(&mut self, path: &str, pairs: Vec<(String, String)>)
        requires
            old(self).wf(),
        ensures
            final(self).wf(),
            final(self).pending@ =~= old(self).pending@,
            final(self).aggregate_output == old(self).aggregate_output,
            final(self).recurse == old(self).recurse,
            groups_view(final(self).aggregate@) =~= upsert(
                groups_view(old(self).aggregate@),
                path@,
                pairs_view(pairs@),
            ),
    {
        let ghost gs = groups_view(self.aggregate@);
        let ghost k = path@;
        let ghost v = pairs_view(pairs@);
        proof {
            assert(gs.len() == self.aggregate@.len());
            assert(forall|x: int|
                0 <= x < self.aggregate@.len() ==> gs[x].0 == self.aggregate@[x].0@);
        }
        let m: usize = self.aggregate.len();
        let mut j: usize = 0;
        let mut found: bool = false;
        while j < m && !found
            invariant
                m == self.aggregate@.len(),
                j <= m,
                gs == groups_view(self.aggregate@),
                !found ==> forall|x: int| 0 <= x < j ==> self.aggregate@[x].0@ != path@,
                found ==> j < m && self.aggregate@[j as int].0@ == path@,
            decreases m - j + (if found { 0int } else { 1int }),
        {
            if str_eq(self.aggregate[j].0.as_str(), path) {
                found = true;
            } else {
                j = j + 1;
            }
        }
        let entry = (path.to_owned(), pairs);
        if found {
            self.aggregate.set(j, entry);
            proof {
                assert(gs[j as int].0 == k);
                assert(forall|x: int| 0 <= x < j ==> gs[x].0 != k);
                lemma_upsert_found(gs, k, v, j as int);
                assert(groups_view(self.aggregate@) =~= gs.update(j as int, (k, v)));
                assert(unique_keys(groups_view(self.aggregate@)));
            }
        } else {
            self.aggregate.push(entry);
            proof {
                assert(forall|x: int| 0 <= x < gs.len() ==> gs[x].0 != k);
                lemma_upsert_absent(gs, k, v);
                assert(groups_view(self.aggregate@) =~= gs.push((k, v)));
                assert(unique_keys(groups_view(self.aggregate@)));
            }
        }
    }

    /// The run's final output: in aggregate mode the whole aggregate
    /// serialized once, to be printed; otherwise nothing, every file
    /// having written its own sidecar already.
    pub fn finish(&self) -> (r: Option<String>)
        ensures
            (self.aggregate_output ==> (r matches Some(t) && t@ == json_pretty_aggregate(
                groups_view(self.aggregate@),
            ))),
            (!self.aggregate_output ==> r is None),
    {
        if self.aggregate_output {
            Some(stringify_groups(&self.aggregate))
        } else {
            None
        }
    }
}

/// The elements of a vector in reverse order.
fn reversed(items: Vec<String>) -> (r: Vec<String>)
    ensures
        r@ =~= items@.reverse(),
{
    let mut rest = items;
    let ghost orig = rest@;
    let mut out: Vec<String> = Vec::new();
    while rest.len() > 0
        invariant
            rest@.len() <= orig.len(),
            rest@ =~= orig.subrange(0, rest@.len() as int),
            out@ =~= orig.subrange(rest@.len() as int, orig.len() as int).reverse(),
        decreases rest@.len(),
    {
        let ghost k = rest@.len() as int;
        let s = match rest.pop() {
            Some(s) => s,
            None => {
                proof {
                    assert(false);
                }
                return out;
            },
        };
        out.push(s);
        proof {
            let n = orig.len() as int;
            assert(orig.subrange(0, k).drop_last() =~= orig.subrange(0, k - 1));
            assert(rest@ =~= orig.subrange(0, k - 1));
            assert(s == orig[k - 1]);
            assert(orig.subrange(k - 1, n).reverse() =~= orig.subrange(k, n).reverse().push(
                orig[k - 1],
            ));
            assert(out@ =~= orig.subrange(k - 1, n).reverse());
        }
    }
    proof {
        assert(out@ =~= orig.reverse());
    }
    out
}

/// Whether two string slices hold the same characters.
fn str_eq(a: &str, b: &str) -> (r: bool)
    ensures
        r == (a@ == b@),
{
    let n = a.unicode_len();
    if n != b.unicode_len() {
        proof {
            assert(a@.len() != b@.len());
        }
        return false;
    }
    let mut i: usize = 0;
    while i < n
        invariant
            n == a@.len(),
            n == b@.len(),
            i <= n,
            forall|x: int| 0 <= x < i ==> a@[x] == b@[x],
        decreases n - i,
    {
        if a.get_char(i) != b.get_char(i) {
            return false;
        }
        i = i + 1;
    }
    proof {
        assert(a@ =~= b@);
    }
    true
}

} // verus!
