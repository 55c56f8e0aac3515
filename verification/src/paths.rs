use vstd::prelude::*;

verus! {

use vstd::string::StrSliceExecFns;
use vstd::string::StringExecFns;

/// Scan state after reading a prefix of a path: the index where the final
/// path component starts, and the index of that component's extension dot,
/// `-1` when none has been seen. A dot that opens the final component (a
/// hidden file) does not start an extension.
pub open spec fn scan_state(p: Seq<char>) -> (int, int)
    decreases p.len(),
{
    if p.len() == 0 {
        (0, -1)
    } else {
        let s = scan_state(p.drop_last());
        let i = p.len() - 1;
        if p.last() == '/' {
            (i + 1, -1)
        } else if p.last() == '.' && i > s.0 {
            (s.0, i)
        } else {
            s
        }
    }
}

/// Index at which the extension dot of the final path component stands,
/// or the path's length when the component has no extension.
pub open spec fn ext_cut(p: Seq<char>) -> int {
    if scan_state(p).1 == -1 {
        p.len() as int
    } else {
        scan_state(p).1
    }
}

/// The path with its extension replaced: everything before the extension
/// dot of the final component (the whole path when there is none), then a
/// dot and the new extension.
pub open spec fn with_ext(p: Seq<char>, e: Seq<char>) -> Seq<char> {
    p.subrange(0, ext_cut(p)) + seq!['.'] + e
}

pub proof fn lemma_scan_state_bounds(p: Seq<char>)
    ensures
        0 <= scan_state(p).0 <= p.len(),
        scan_state(p).1 == -1 || scan_state(p).0 <= scan_state(p).1 < p.len(),
    decreases p.len(),
{
    if p.len() > 0 {
        lemma_scan_state_bounds(p.drop_last());
    }
}

/// Replace the extension of `path` by `ext`, under the convention that an
/// extension is what follows the last dot of the final path component,
/// where that dot is not the component's first character.
pub fn replace_extension(path: &str, ext: &str) -> (r: String)
    ensures
        r@ == with_ext(path@, ext@),
{
    let n = path.unicode_len();
    let mut comp_start: usize = 0;
    let mut cut: usize = 0;
    let mut has_cut: bool = false;
    let mut i: usize = 0;
    proof {
        assert(path@.subrange(0, 0) =~= Seq::<char>::empty());
    }
    while i < n
        invariant
            n == path@.len(),
            i <= n,
            comp_start == scan_state(path@.subrange(0, i as int)).0,
            has_cut <==> scan_state(path@.subrange(0, i as int)).1 != -1,
            has_cut ==> cut == scan_state(path@.subrange(0, i as int)).1,
        decreases n - i,
    {
        proof {
            lemma_scan_state_bounds(path@.subrange(0, i as int));
            assert(path@.subrange(0, i + 1).drop_last() =~= path@.subrange(0, i as int));
            assert(path@.subrange(0, i + 1).last() == path@[i as int]);
        }
        let c = path.get_char(i);
        if c == '/' {
            comp_start = i + 1;
            has_cut = false;
        } else if c == '.' && i > comp_start {
            cut = i;
            has_cut = true;
        }
        i = i + 1;
    }
    proof {
        assert(path@.subrange(0, n as int) =~= path@);
        lemma_scan_state_bounds(path@);
    }
    let stem_end: usize = if has_cut { cut } else { n };
    let stem = path.substring_char(0, stem_end);
    let mut r = stem.to_owned();
    r.append(".");
    r.append(ext);
    proof {
        reveal_strlit(".");
        assert(r@ =~= with_ext(path@, ext@));
    }
    r
}

/// A path names an audio file exactly when it ends with the fixed
/// suffix "mp3" (case-sensitive, a preceding dot not required).
pub open spec fn spec_is_audio(p: Seq<char>) -> bool {
    p.len() >= 3 && p[p.len() - 3] == 'm' && p[p.len() - 2] == 'p' && p[p.len() - 1] == '3'
}

pub fn is_audio_path(path: &str) -> (r: bool)
    ensures
        r == spec_is_audio(path@),
{
    let n = path.unicode_len();
    if n < 3 {
        return false;
    }
    let a = path.get_char(n - 3);
    let b = path.get_char(n - 2);
    let c = path.get_char(n - 1);
    a == 'm' && b == 'p' && c == '3'
}

} // verus!
