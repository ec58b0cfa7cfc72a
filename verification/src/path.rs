//! Normalization of paths.
//!
//! A path is a string of segments separated by `/`. Normalization works on the
//! text alone: it drops empty segments and `.` segments, lets a `..` segment
//! cancel the segment before it, and joins what is left with single
//! separators. Nothing is looked up on disk, so the path need not exist and no
//! symbolic link is followed.

use crate::error::FavError;
use vstd::prelude::*;
use vstd::string::*;

verus! {

/// A string is a path if it is not empty and holds no NUL character.
pub open spec fn is_valid_path(s: Seq<char>) -> bool {
    s.len() > 0 && forall|i: int| 0 <= i < s.len() ==> s[i] != '\0'
}

/// A path is absolute if it starts at the root.
pub open spec fn is_absolute(s: Seq<char>) -> bool {
    s.len() > 0 && s[0] == '/'
}

/// The segment `.`, which stands for the directory it is found in.
pub open spec fn dot() -> Seq<char> {
    seq!['.']
}

/// The segment `..`, which stands for the parent directory.
pub open spec fn dot_dot() -> Seq<char> {
    seq!['.', '.']
}

/// The pieces of `s` between its separators, empty ones included: a string
/// with `n` separators has `n + 1` segments.
pub open spec fn segments(s: Seq<char>) -> Seq<Seq<char>>
    decreases s.len(),
{
    if s.len() == 0 {
        seq![Seq::<char>::empty()]
    } else {
        let before = segments(s.drop_last());
        if s.last() == '/' {
            before.push(Seq::<char>::empty())
        } else {
            before.drop_last().push(before.last().push(s.last()))
        }
    }
}

/// What is kept after the segment `seg` has been read, where `kept` was kept
/// of the segments before it.
pub open spec fn resolve_segment(kept: Seq<Seq<char>>, seg: Seq<char>, absolute: bool) -> Seq<
    Seq<char>,
> {
    if seg.len() == 0 || seg == dot() {
        kept
    } else if seg == dot_dot() {
        if kept.len() > 0 && kept.last() != dot_dot() {
            kept.drop_last()
        } else if absolute {
            kept
        } else {
            kept.push(seg)
        }
    } else {
        kept.push(seg)
    }
}

/// What is kept of `segs`, read from left to right.
pub open spec fn resolve_all(segs: Seq<Seq<char>>, absolute: bool) -> Seq<Seq<char>>
    decreases segs.len(),
{
    if segs.len() == 0 {
        Seq::empty()
    } else {
        resolve_segment(resolve_all(segs.drop_last(), absolute), segs.last(), absolute)
    }
}

/// The segments written one after the other, with one separator between two
/// neighbours.
pub open spec fn joined(segs: Seq<Seq<char>>) -> Seq<char>
    decreases segs.len(),
{
    if segs.len() == 0 {
        Seq::empty()
    } else if segs.len() == 1 {
        segs[0]
    } else {
        joined(segs.drop_last()) + seq!['/'] + segs.last()
    }
}

/// The canonical form of the path `s`. An absolute path stays absolute; a
/// relative path that comes to nothing is `.`.
pub open spec fn normalized(s: Seq<char>) -> Seq<char> {
    let kept = resolve_all(segments(s), is_absolute(s));
    if is_absolute(s) {
        seq!['/'] + joined(kept)
    } else if kept.len() == 0 {
        dot()
    } else {
        joined(kept)
    }
}

/// A path is canonical if it is its own canonical form.
pub open spec fn is_canonical(s: Seq<char>) -> bool {
    is_valid_path(s) && normalized(s) == s
}

/// The parts of `s` that the ranges `cuts` mark, in their order.
spec fn pieces(s: Seq<char>, cuts: Seq<(usize, usize)>) -> Seq<Seq<char>> {
    Seq::new(cuts.len(), |i: int| s.subrange(cuts[i].0 as int, cuts[i].1 as int))
}

/// Every range of `cuts` lies within a string of length `len`.
spec fn cuts_within(cuts: Seq<(usize, usize)>, len: nat) -> bool {
    forall|i: int| 0 <= i < cuts.len() ==> (#[trigger] cuts[i]).0 <= cuts[i].1 <= len
}

/// The characters of `path`, or `None` if it is not a valid path.
fn path_chars(path: &str) -> (r: Option<Vec<char>>)
    ensures
        is_valid_path(path@) ==> (r matches Some(chars) && chars@ == path@),
        !is_valid_path(path@) ==> r is None,
{
    let mut chars: Vec<char> = Vec::new();
    for c in it: path.chars()
        invariant
            it.seq() == path@,
            chars@ == path@.take(it.index() as int),
            forall|j: int| 0 <= j < it.index() ==> path@[j] != '\0',
    {
        if c == '\0' {
            return None;
        }
        chars.push(c);
    }
    if chars.len() == 0 {
        None
    } else {
        Some(chars)
    }
}

/// Marks the segments of `chars`.
fn split_segments(chars: &Vec<char>) -> (cuts: Vec<(usize, usize)>)
    ensures
        cuts_within(cuts@, chars@.len()),
        pieces(chars@, cuts@) == segments(chars@),
{
    let n: usize = chars.len();
    let mut cuts: Vec<(usize, usize)> = Vec::new();
    let mut start: usize = 0;
    let mut i: usize = 0;
    assert(chars@.subrange(0, 0) =~= Seq::<char>::empty());
    while i < n
        invariant
            n == chars@.len(),
            start <= i <= n,
            cuts_within(cuts@, chars@.len()),
            pieces(chars@, cuts@).push(chars@.subrange(start as int, i as int)) == segments(
                chars@.take(i as int),
            ),
        decreases n - i,
    {
        assert(chars@.take(i as int + 1).drop_last() =~= chars@.take(i as int));
        if chars[i] == '/' {
            cuts.push((start, i));
            start = i + 1;
            assert(chars@.subrange(start as int, i as int + 1) =~= Seq::<char>::empty());
        } else {
            assert(chars@.subrange(start as int, i as int + 1) =~= chars@.subrange(
                start as int,
                i as int,
            ).push(chars@[i as int]));
        }
        i += 1;
    }
    assert(chars@.take(n as int) =~= chars@);
    cuts.push((start, n));
    cuts
}

/// Whether the range `cut` of `chars` is the segment `.`.
fn is_dot(chars: &Vec<char>, cut: (usize, usize)) -> (r: bool)
    requires
        cut.0 <= cut.1 <= chars@.len(),
    ensures
        r == (chars@.subrange(cut.0 as int, cut.1 as int) == dot()),
{
    let ghost seg = chars@.subrange(cut.0 as int, cut.1 as int);
    if cut.1 - cut.0 == 1 && chars[cut.0] == '.' {
        assert(seg =~= dot());
        true
    } else {
        assert(dot().len() == 1 && dot()[0] == '.');
        false
    }
}

/// Whether the range `cut` of `chars` is the segment `..`.
fn is_dot_dot(chars: &Vec<char>, cut: (usize, usize)) -> (r: bool)
    requires
        cut.0 <= cut.1 <= chars@.len(),
    ensures
        r == (chars@.subrange(cut.0 as int, cut.1 as int) == dot_dot()),
{
    let ghost seg = chars@.subrange(cut.0 as int, cut.1 as int);
    if cut.1 - cut.0 == 2 && chars[cut.0] == '.' && chars[cut.0 + 1] == '.' {
        assert(seg =~= dot_dot());
        true
    } else {
        assert(dot_dot().len() == 2 && dot_dot()[0] == '.' && dot_dot()[1] == '.');
        false
    }
}

/// Reads the segments that `cuts` marks and returns the ranges of those that
/// are kept.
fn resolve_segments(chars: &Vec<char>, cuts: &Vec<(usize, usize)>, absolute: bool) -> (kept: Vec<
    (usize, usize),
>)
    requires
        cuts_within(cuts@, chars@.len()),
    ensures
        cuts_within(kept@, chars@.len()),
        pieces(chars@, kept@) == resolve_all(pieces(chars@, cuts@), absolute),
{
    let mut kept: Vec<(usize, usize)> = Vec::new();
    let mut k: usize = 0;
    while k < cuts.len()
        invariant
            k <= cuts@.len(),
            cuts_within(cuts@, chars@.len()),
            cuts_within(kept@, chars@.len()),
            pieces(chars@, kept@) == resolve_all(pieces(chars@, cuts@).take(k as int), absolute),
        decreases cuts@.len() - k,
    {
        let cut: (usize, usize) = cuts[k];
        assert(pieces(chars@, cuts@).take(k as int + 1).drop_last() =~= pieces(
            chars@,
            cuts@,
        ).take(k as int));
        if cut.1 != cut.0 && !is_dot(chars, cut) {
            if !is_dot_dot(chars, cut) {
                kept.push(cut);
            } else {
                let depth: usize = kept.len();
                if depth > 0 && !is_dot_dot(chars, kept[depth - 1]) {
                    kept.pop();
                } else if !absolute {
                    kept.push(cut);
                }
            }
        }
        k += 1;
    }
    assert(pieces(chars@, cuts@).take(k as int) =~= pieces(chars@, cuts@));
    kept
}

/// Writes the parts of `path` that `kept` marks, with one separator between
/// two neighbours, behind `head`.
fn join_segments(path: &str, kept: &Vec<(usize, usize)>, head: String) -> (out: String)
    requires
        cuts_within(kept@, path@.len()),
    ensures
        out@ == head@ + joined(pieces(path@, kept@)),
{
    let mut out: String = head;
    let mut j: usize = 0;
    while j < kept.len()
        invariant
            j <= kept@.len(),
            cuts_within(kept@, path@.len()),
            out@ == head@ + joined(pieces(path@, kept@).take(j as int)),
        decreases kept@.len() - j,
    {
        let cut: (usize, usize) = kept[j];
        assert(pieces(path@, kept@).take(j as int + 1).drop_last() =~= pieces(path@, kept@).take(
            j as int,
        ));
        if j > 0 {
            proof {
                reveal_strlit("/");
            }
            out.append("/");
        }
        out.append(path.substring_char(cut.0, cut.1));
        j += 1;
    }
    assert(pieces(path@, kept@).take(j as int) =~= pieces(path@, kept@));
    out
}

/// Brings `path` into its canonical form: without empty segments and `.`
/// segments, and with each `..` resolved against the segment before it.
/// A string that is empty or holds a NUL character is no path.
pub fn normalize_path(path: &str) -> (r: Result<String, FavError>)
    ensures
        is_valid_path(path@) ==> (r matches Ok(canonical) && canonical@ == normalized(path@)),
        !is_valid_path(path@) ==> r matches Err(FavError::InvalidPath),
{
    let chars: Vec<char> = match path_chars(path) {
        Some(chars) => chars,
        None => {
            return Err(FavError::InvalidPath);
        },
    };
    let absolute: bool = chars[0] == '/';
    let cuts: Vec<(usize, usize)> = split_segments(&chars);
    let kept: Vec<(usize, usize)> = resolve_segments(&chars, &cuts, absolute);
    proof {
        reveal_strlit("/");
        reveal_strlit(".");
        reveal_strlit("");
    }
    if absolute {
        Ok(join_segments(path, &kept, "/".to_owned()))
    } else if kept.len() == 0 {
        Ok(".".to_owned())
    } else {
        Ok(join_segments(path, &kept, "".to_owned()))
    }
}

/// Whether `path` is a path in its canonical form.
pub fn is_canonical_path(path: &str) -> (canonical: bool)
    ensures
        canonical == is_canonical(path@),
{
    match normalize_path(path) {
        Ok(form) => form == path.to_owned(),
        Err(_) => false,
    }
}

/// No character of `s` is `c`.
pub open spec fn lacks(s: Seq<char>, c: char) -> bool {
    forall|i: int| 0 <= i < s.len() ==> s[i] != c
}

/// No segment of `segs` holds the character `c`.
pub open spec fn all_lack(segs: Seq<Seq<char>>, c: char) -> bool {
    forall|i: int| 0 <= i < segs.len() ==> lacks(#[trigger] segs[i], c)
}

/// Nothing is left to resolve in `kept`: no segment is empty or `.`, and `..`
/// stands only at the front of a relative path, where no segment is before it
/// to cancel.
pub open spec fn is_resolved(kept: Seq<Seq<char>>, absolute: bool) -> bool {
    forall|i: int|
        0 <= i < kept.len() ==> {
            &&& (#[trigger] kept[i]).len() > 0
            &&& kept[i] != dot()
            &&& kept[i] == dot_dot() ==> !absolute && (i == 0 || kept[i - 1] == dot_dot())
        }
}

/// A string has at least one segment, no segment holds a separator, and a
/// character that the string lacks is in none of them.
proof fn lemma_segments_hold_no_separator(s: Seq<char>, c: char)
    ensures
        segments(s).len() >= 1,
        all_lack(segments(s), '/'),
        lacks(s, c) ==> all_lack(segments(s), c),
    decreases s.len(),
{
    if s.len() > 0 {
        lemma_segments_hold_no_separator(s.drop_last(), c);
        assert(lacks(s, c) ==> lacks(s.drop_last(), c));
    }
}

/// Joining undoes splitting: the segments of a string, joined, are the
/// string.
pub proof fn law_joined_segments(s: Seq<char>)
    ensures
        joined(segments(s)) == s,
    decreases s.len(),
{
    if s.len() > 0 {
        let front = s.drop_last();
        let before = segments(front);
        law_joined_segments(front);
        lemma_segments_hold_no_separator(front, '/');
        if s.last() == '/' {
            assert(before.push(Seq::<char>::empty()).drop_last() =~= before);
        } else {
            let grown = before.last().push(s.last());
            assert(before.drop_last().push(grown).drop_last() =~= before.drop_last());
        }
        assert(front.push(s.last()) =~= s);
    }
}

/// Text without a separator, written behind `a`, lengthens the last segment
/// of `a`.
proof fn lemma_segments_grow(a: Seq<char>, b: Seq<char>)
    requires
        lacks(b, '/'),
    ensures
        segments(a).len() >= 1,
        segments(a + b) == segments(a).drop_last().push(segments(a).last() + b),
    decreases b.len(),
{
    lemma_segments_hold_no_separator(a, '/');
    if b.len() > 0 {
        let shorter = b.drop_last();
        assert(lacks(shorter, '/'));
        lemma_segments_grow(a, shorter);
        assert((a + b).drop_last() =~= a + shorter);
        assert(segments(a + shorter).last().push(b.last()) =~= segments(a).last() + b);
    }
}

/// A separator and text without one, written behind `p`, add one segment.
proof fn lemma_segments_after_separator(p: Seq<char>, seg: Seq<char>)
    requires
        lacks(seg, '/'),
    ensures
        segments(p + seq!['/'] + seg) == segments(p).push(seg),
{
    let cut = p + seq!['/'];
    assert(cut.drop_last() =~= p);
    lemma_segments_grow(cut, seg);
}

/// Splitting undoes joining: segments without a separator, joined, are the
/// segments of the result.
proof fn lemma_segments_of_joined(segs: Seq<Seq<char>>)
    requires
        segs.len() >= 1,
        all_lack(segs, '/'),
    ensures
        segments(joined(segs)) == segs,
    decreases segs.len(),
{
    if segs.len() == 1 {
        lemma_segments_grow(Seq::<char>::empty(), segs[0]);
    } else {
        let front = segs.drop_last();
        assert(all_lack(front, '/'));
        lemma_segments_of_joined(front);
        lemma_segments_after_separator(joined(front), segs.last());
    }
}

/// The segments of a joined path behind a separator: one empty segment for
/// what stands before the separator, then the segments that were joined.
proof fn lemma_segments_of_rooted(segs: Seq<Seq<char>>)
    requires
        segs.len() >= 1,
        all_lack(segs, '/'),
    ensures
        segments(seq!['/'] + joined(segs)) == seq![Seq::<char>::empty()] + segs,
    decreases segs.len(),
{
    let root = seq!['/'];
    if segs.len() == 1 {
        lemma_segments_after_separator(Seq::<char>::empty(), segs[0]);
    } else {
        let front = segs.drop_last();
        assert(all_lack(front, '/'));
        lemma_segments_of_rooted(front);
        lemma_segments_after_separator(root + joined(front), segs.last());
        assert(root + joined(front) + root + segs.last() =~= root + joined(segs));
    }
}

/// Resolving a segment leaves nothing to resolve where nothing was left
/// before, and keeps out any character that the segments lack.
proof fn lemma_resolve_segment_resolved(
    kept: Seq<Seq<char>>,
    seg: Seq<char>,
    absolute: bool,
    c: char,
)
    requires
        is_resolved(kept, absolute),
    ensures
        is_resolved(resolve_segment(kept, seg, absolute), absolute),
        all_lack(kept, c) && lacks(seg, c) ==> all_lack(resolve_segment(kept, seg, absolute), c),
{
}

/// After all segments were read nothing is left to resolve, and what is kept
/// holds no character that the segments lack.
proof fn lemma_resolve_all_resolved(segs: Seq<Seq<char>>, absolute: bool, c: char)
    ensures
        is_resolved(resolve_all(segs, absolute), absolute),
        all_lack(segs, c) ==> all_lack(resolve_all(segs, absolute), c),
    decreases segs.len(),
{
    if segs.len() > 0 {
        let front = segs.drop_last();
        lemma_resolve_all_resolved(front, absolute, c);
        assert(all_lack(segs, c) ==> all_lack(front, c));
        lemma_resolve_segment_resolved(resolve_all(front, absolute), segs.last(), absolute, c);
    }
}

/// Where nothing is left to resolve, resolving changes nothing.
proof fn lemma_resolved_stays(kept: Seq<Seq<char>>, absolute: bool)
    requires
        is_resolved(kept, absolute),
    ensures
        resolve_all(kept, absolute) == kept,
    decreases kept.len(),
{
    if kept.len() > 0 {
        let front = kept.drop_last();
        assert(is_resolved(front, absolute));
        lemma_resolved_stays(front, absolute);
    }
}

/// An empty segment at the front does not change what is kept.
proof fn lemma_resolve_skips_leading_empty(segs: Seq<Seq<char>>, absolute: bool)
    ensures
        resolve_all(seq![Seq::<char>::empty()] + segs, absolute) == resolve_all(segs, absolute),
    decreases segs.len(),
{
    let none = Seq::<char>::empty();
    let led = seq![none] + segs;
    if segs.len() == 0 {
        assert(resolve_all(led, absolute) == resolve_segment(
            resolve_all(led.drop_last(), absolute),
            none,
            absolute,
        ));
    } else {
        lemma_resolve_skips_leading_empty(segs.drop_last(), absolute);
        assert(led.drop_last() =~= seq![none] + segs.drop_last());
    }
}

/// Joined segments start with the first segment, and hold no character but
/// the separator that the segments lack.
proof fn lemma_joined_chars(segs: Seq<Seq<char>>, c: char)
    requires
        segs.len() >= 1,
    ensures
        joined(segs).len() >= segs[0].len(),
        joined(segs).take(segs[0].len() as int) == segs[0],
        all_lack(segs, c) && c != '/' ==> lacks(joined(segs), c),
    decreases segs.len(),
{
    if segs.len() > 1 {
        let front = segs.drop_last();
        lemma_joined_chars(front, c);
        assert(all_lack(segs, c) ==> all_lack(front, c));
    }
}

/// The canonical form of a path is a path, and it is its own canonical form:
/// normalizing twice gives what normalizing once gives.
pub proof fn law_normalized_is_canonical(s: Seq<char>)
    requires
        is_valid_path(s),
    ensures
        is_valid_path(normalized(s)),
        is_absolute(normalized(s)) == is_absolute(s),
        normalized(normalized(s)) == normalized(s),
        is_canonical(normalized(s)),
{
    let absolute = is_absolute(s);
    let kept = resolve_all(segments(s), absolute);
    let once = normalized(s);
    let none = Seq::<char>::empty();
    lemma_segments_hold_no_separator(s, '\0');
    lemma_resolve_all_resolved(segments(s), absolute, '\0');
    lemma_resolve_all_resolved(segments(s), absolute, '/');
    lemma_resolved_stays(kept, absolute);
    if kept.len() > 0 {
        lemma_joined_chars(kept, '\0');
        assert(joined(kept)[0] == kept[0][0]);
    }
    if absolute {
        assert(lacks(once, '\0'));
        if kept.len() == 0 {
            assert(once.drop_last() =~= none);
            assert(segments(once) =~= seq![none] + seq![none]);
            lemma_resolve_skips_leading_empty(seq![none], true);
            assert(seq![none].drop_last() =~= Seq::<Seq<char>>::empty());
        } else {
            lemma_segments_of_rooted(kept);
            lemma_resolve_skips_leading_empty(kept, true);
        }
    } else if kept.len() == 0 {
        lemma_segments_grow(none, dot());
        assert(segments(dot()) =~= seq![dot()]);
        assert(seq![dot()].drop_last() =~= Seq::<Seq<char>>::empty());
    } else {
        lemma_segments_of_joined(kept);
    }
}

} // verus!
