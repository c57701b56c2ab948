//! Wildcard pattern matching and target-template composition.
//!
//! A source pattern is split on the wildcard marker `*` into literal
//! segments; matching a filename against those segments yields, per
//! wildcard, the substring it captured.  A target template holds
//! placeholders `#1`..`#9`; composing it with the captured substrings
//! synthesizes the new filename.

use vstd::prelude::*;

verus! {

/// Error raised when a target template references a wildcard index
/// beyond the number of wildcards present in the source pattern.
#[derive(Debug, PartialEq, Eq, Structural, Clone, Copy)]
pub struct TemplateError {
    /// Number of wildcards available in the source pattern.
    pub asterisks: usize,
    /// Highest placeholder index requested by the target template.
    pub hashes: usize,
}

/// Literal segments of a wildcard pattern: the pattern split on the
/// wildcard marker `*`.  A pattern with `k` wildcards yields `k + 1`
/// segments; a pattern without wildcards yields one segment.
pub open spec fn star_split(s: Seq<char>) -> Seq<Seq<char>>
    decreases s.len(),
{
    if s.len() == 0 {
        seq![Seq::<char>::empty()]
    } else if s[0] == '*' {
        seq![Seq::<char>::empty()] + star_split(s.drop_first())
    } else {
        let rest = star_split(s.drop_first());
        seq![seq![s[0]] + rest[0]] + rest.drop_first()
    }
}

/// A split always yields at least one segment.
pub proof fn lemma_star_split_nonempty(s: Seq<char>)
    ensures
        star_split(s).len() >= 1,
    decreases s.len(),
{
    if s.len() != 0 {
        lemma_star_split_nonempty(s.drop_first());
    }
}

/// Position of the leftmost occurrence of `needle` in `hay` at or after
/// position `from`, or `None` when there is none.  The empty needle
/// occurs at every position up to and including `hay.len()`.
pub open spec fn first_match(hay: Seq<char>, needle: Seq<char>, from: int) -> Option<int>
    decreases hay.len() - from,
{
    if from < 0 {
        None
    } else if from + needle.len() > hay.len() {
        None
    } else if needle.len() == 0 {
        Some(from)
    } else if hay.subrange(from, from + needle.len()) == needle {
        Some(from)
    } else {
        first_match(hay, needle, from + 1)
    }
}

/// A successful match lies within `hay` and really is an occurrence of
/// `needle`.
pub proof fn lemma_first_match_props(hay: Seq<char>, needle: Seq<char>, from: int)
    ensures
        first_match(hay, needle, from) matches Some(p) ==> from <= p && p + needle.len()
            <= hay.len() && hay.subrange(p, p + needle.len()) == needle,
    decreases hay.len() - from,
{
    if from < 0 || from + needle.len() > hay.len() {
    } else if needle.len() == 0 {
        assert(hay.subrange(from, from) =~= needle);
    } else if hay.subrange(from, from + needle.len()) == needle {
    } else {
        lemma_first_match_props(hay, needle, from + 1);
    }
}

/// Whether `needle` occurs in `hay` starting exactly at position `at`.
fn str_eq_at(hay: &str, needle: &str, at: usize) -> (r: bool)
    requires
        at + needle@.len() <= hay@.len(),
    ensures
        r == (hay@.subrange(at as int, at + needle@.len()) == needle@),
{
    let hl = hay.unicode_len();
    let nl = needle.unicode_len();
    let mut i: usize = 0;
    while i < nl
        invariant
            i <= nl,
            nl == needle@.len(),
            hl == hay@.len(),
            at + nl <= hl,
            forall|q: int| 0 <= q < i ==> hay@[at + q] == needle@[q],
        decreases nl - i,
    {
        if hay.get_char(at + i) != needle.get_char(i) {
            proof {
                assert(hay@.subrange(at as int, at + needle@.len())[i as int] == hay@[at + i]);
            }
            return false;
        }
        i = i + 1;
    }
    proof {
        assert(hay@.subrange(at as int, at + needle@.len()) =~= needle@);
    }
    true
}

/// Leftmost occurrence of `needle` in `hay` at or after `from`,
/// following `first_match`.
fn find_from(hay: &str, needle: &str, from: usize) -> (r: Option<usize>)
    requires
        from <= hay@.len(),
    ensures
        match r {
            Some(p) => first_match(hay@, needle@, from as int) == Some(p as int),
            None => first_match(hay@, needle@, from as int) is None,
        },
{
    let hl = hay.unicode_len();
    let nl = needle.unicode_len();
    let mut p = from;
    loop
        invariant
            from <= p <= hl,
            hl == hay@.len(),
            nl == needle@.len(),
            first_match(hay@, needle@, from as int) == first_match(hay@, needle@, p as int),
        decreases hl - p,
    {
        if nl > hl - p {
            return None;
        }
        if str_eq_at(hay, needle, p) {
            return Some(p);
        }
        proof {
            if nl == 0 {
                assert(hay@.subrange(p as int, p as int) =~= needle@);
            }
        }
        p = p + 1;
    }
}

/// Captures for the wildcards standing before segments `k`, `k + 1`, ...
/// of the pattern, extracted from `f` with the cursor at `shift`, paired
/// with the cursor position after the last consumed segment.
///
/// For each segment in turn: an empty segment in last position is a
/// trailing wildcard, whose capture is the whole remainder of `f`; an
/// empty segment elsewhere arises from adjacent wildcards, and its
/// capture is the empty string; a non-empty segment is anchored at its
/// leftmost occurrence at or after the cursor, the capture being the
/// text between the cursor and that occurrence.  A segment with no
/// occurrence makes the whole extraction fail.
pub open spec fn extract_from(segs: Seq<Seq<char>>, f: Seq<char>, k: int, shift: int) -> Option<
    (Seq<Seq<char>>, int),
>
    decreases segs.len() - k,
{
    if k < 1 || k >= segs.len() {
        Some((Seq::<Seq<char>>::empty(), shift))
    } else if segs[k].len() == 0 {
        if k == segs.len() - 1 {
            Some((seq![f.subrange(shift, f.len() as int)], f.len() as int))
        } else {
            match extract_from(segs, f, k + 1, shift) {
                Some(r) => Some((seq![Seq::<char>::empty()] + r.0, r.1)),
                None => None,
            }
        }
    } else {
        match first_match(f, segs[k], shift) {
            Some(p) => match extract_from(segs, f, k + 1, p + segs[k].len()) {
                Some(r) => Some((seq![f.subrange(shift, p)] + r.0, r.1)),
                None => None,
            },
            None => None,
        }
    }
}

/// Whether `f` begins with the literal segment `seg0`.
pub open spec fn matches_prefix(seg0: Seq<char>, f: Seq<char>) -> bool {
    seg0.len() <= f.len() && f.subrange(0, seg0.len() as int) == seg0
}

/// Full extraction of `f` against the literal segments of a pattern:
/// the filename must begin with the first segment, then the wildcard
/// captures are read off left to right.  Returns the captures and the
/// final cursor position, or `None` when `f` does not decompose.
pub open spec fn extraction_of(segs: Seq<Seq<char>>, f: Seq<char>) -> Option<
    (Seq<Seq<char>>, int),
> {
    if segs.len() >= 1 && matches_prefix(segs[0], f) {
        extract_from(segs, f, 1, segs[0].len() as int)
    } else {
        None
    }
}

/// The ordered wildcard captures of `f` under the pattern's segments,
/// or `None` when `f` does not decompose against them.
pub open spec fn captures_of(segs: Seq<Seq<char>>, f: Seq<char>) -> Option<Seq<Seq<char>>> {
    match extraction_of(segs, f) {
        Some(r) => Some(r.0),
        None => None,
    }
}

/// Alternation starting with a filler: `fillers[0] + parts[0] + fillers[1]
/// + parts[1] + ...`, for two sequences of equal length.
pub open spec fn weave(fillers: Seq<Seq<char>>, parts: Seq<Seq<char>>) -> Seq<char>
    recommends
        fillers.len() == parts.len(),
    decreases fillers.len(),
{
    if fillers.len() == 0 {
        Seq::<char>::empty()
    } else {
        fillers[0] + parts[0] + weave(fillers.drop_first(), parts.drop_first())
    }
}

/// Alternation starting with a part: `parts[0] + fillers[0] + parts[1] +
/// fillers[1] + ... + parts[last]`, for `parts` one longer than `fillers`.
pub open spec fn interleave(parts: Seq<Seq<char>>, fillers: Seq<Seq<char>>) -> Seq<char>
    recommends
        parts.len() == fillers.len() + 1,
{
    if parts.len() == 0 {
        Seq::<char>::empty()
    } else {
        parts[0] + weave(fillers, parts.drop_first())
    }
}

/// A successful extraction yields one capture per remaining segment, a
/// final cursor inside `f`, and captures that tile the consumed span of
/// `f` exactly: weaving them with the remaining segments rebuilds
/// `f[shift..end]`.
pub proof fn lemma_extract_from_tiles(segs: Seq<Seq<char>>, f: Seq<char>, k: int, shift: int)
    requires
        1 <= k <= segs.len(),
        0 <= shift <= f.len(),
    ensures
        extract_from(segs, f, k, shift) matches Some(r) ==> {
            &&& r.0.len() == segs.len() - k
            &&& shift <= r.1 <= f.len()
            &&& f.subrange(shift, r.1) == weave(r.0, segs.skip(k))
        },
    decreases segs.len() - k,
{
    if k >= segs.len() {
        assert(f.subrange(shift, shift) =~= weave(Seq::<Seq<char>>::empty(), segs.skip(k)));
    } else if segs[k].len() == 0 {
        if k == segs.len() - 1 {
            let rem = f.subrange(shift, f.len() as int);
            assert(segs.skip(k).len() == 1);
            assert(seq![rem].drop_first() =~= Seq::<Seq<char>>::empty());
            assert(segs.skip(k).drop_first() =~= Seq::<Seq<char>>::empty());
            assert(weave(Seq::<Seq<char>>::empty(), Seq::<Seq<char>>::empty())
                == Seq::<char>::empty());
            assert(segs.skip(k)[0] == segs[k]);
            assert(weave(seq![rem], segs.skip(k)) == rem + segs[k] + Seq::<char>::empty());
            assert(f.subrange(shift, f.len() as int) =~= rem + segs[k] + Seq::<char>::empty());
        } else {
            lemma_extract_from_tiles(segs, f, k + 1, shift);
            if let Some(r) = extract_from(segs, f, k + 1, shift) {
                let caps = seq![Seq::<char>::empty()] + r.0;
                assert(caps.drop_first() =~= r.0);
                assert(segs.skip(k).drop_first() =~= segs.skip(k + 1));
                assert(segs.skip(k)[0] == segs[k]);
                assert(f.subrange(shift, r.1) =~= Seq::<char>::empty() + segs[k] + f.subrange(
                    shift,
                    r.1,
                ));
            }
        }
    } else {
        lemma_first_match_props(f, segs[k], shift);
        if let Some(p) = first_match(f, segs[k], shift) {
            let next = p + segs[k].len();
            lemma_extract_from_tiles(segs, f, k + 1, next);
            if let Some(r) = extract_from(segs, f, k + 1, next) {
                let caps = seq![f.subrange(shift, p)] + r.0;
                assert(caps.drop_first() =~= r.0);
                assert(segs.skip(k).drop_first() =~= segs.skip(k + 1));
                assert(segs.skip(k)[0] == segs[k]);
                assert(f.subrange(shift, r.1) =~= f.subrange(shift, p) + f.subrange(p, next)
                    + f.subrange(next, r.1));
            }
        }
    }
}

/// A successful full extraction yields exactly one capture per wildcard.
pub proof fn lemma_captures_len(segs: Seq<Seq<char>>, f: Seq<char>)
    requires
        segs.len() >= 1,
    ensures
        captures_of(segs, f) matches Some(caps) ==> caps.len() == segs.len() - 1,
{
    if extraction_of(segs, f) is Some {
        lemma_extract_from_tiles(segs, f, 1, segs[0].len() as int);
    }
}

/// Splits a pattern string on the wildcard marker `*` into its literal
/// segments, following `star_split`.
fn split_pattern(template: &str) -> (segs: Vec<String>)
    ensures
        segs.deep_view() == star_split(template@),
        segs@.len() >= 1,
{
    let tl = template.unicode_len();
    let mut segs: Vec<String> = Vec::new();
    let mut start: usize = 0;
    let mut i: usize = 0;
    proof {
        lemma_star_split_nonempty(template@);
        assert(template@.skip(0) =~= template@);
        let ss = star_split(template@);
        assert(ss =~~= Seq::<Seq<char>>::empty() + seq![
            template@.subrange(0, 0) + ss[0],
        ] + ss.drop_first());
    }
    while i < tl
        invariant
            start <= i <= tl,
            tl == template@.len(),
            star_split(template@) == segs.deep_view() + seq![
                template@.subrange(start as int, i as int) + star_split(template@.skip(i as int))[0],
            ] + star_split(template@.skip(i as int)).drop_first(),
        decreases tl - i,
    {
        let ghost pre = template@.skip(i as int);
        let ghost post = template@.skip(i + 1);
        proof {
            lemma_star_split_nonempty(post);
            assert(pre.len() > 0);
            assert(pre[0] == template@[i as int]);
            assert(pre.drop_first() =~= post);
        }
        let c = template.get_char(i);
        if c == '*' {
            let ghost old_segs = segs.deep_view();
            let part = template.substring_char(start, i).to_owned();
            segs.push(part);
            proof {
                assert(segs.deep_view() =~~= old_segs.push(
                    template@.subrange(start as int, i as int),
                ));
                assert(star_split(pre) == seq![Seq::<char>::empty()] + star_split(post));
                assert(template@.subrange(start as int, i as int) + Seq::<char>::empty()
                    =~= template@.subrange(start as int, i as int));
                let ss2 = star_split(post);
                assert(seq![Seq::<char>::empty()] + ss2 == star_split(pre));
                assert((seq![Seq::<char>::empty()] + ss2).drop_first() =~= ss2);
                assert(star_split(template@) =~~= segs.deep_view() + seq![
                    template@.subrange(i + 1, i + 1) + ss2[0],
                ] + ss2.drop_first());
            }
            i = i + 1;
            start = i;
        } else {
            proof {
                let ss2 = star_split(post);
                lemma_star_split_nonempty(post);
                assert(star_split(pre) == seq![seq![template@[i as int]] + ss2[0]]
                    + ss2.drop_first());
                assert(star_split(pre)[0] == seq![template@[i as int]] + ss2[0]);
                assert(star_split(pre).drop_first() =~= ss2.drop_first());
                assert(template@.subrange(start as int, i as int) + (seq![template@[i as int]]
                    + ss2[0]) =~= template@.subrange(start as int, i + 1) + ss2[0]);
                assert(star_split(template@) =~~= segs.deep_view() + seq![
                    template@.subrange(start as int, i + 1) + ss2[0],
                ] + ss2.drop_first());
            }
            i = i + 1;
        }
    }
    let ghost old_segs = segs.deep_view();
    let part = template.substring_char(start, tl).to_owned();
    segs.push(part);
    proof {
        assert(template@.skip(tl as int) =~= Seq::<char>::empty());
        let ss2 = star_split(template@.skip(tl as int));
        assert(ss2 == seq![Seq::<char>::empty()]);
        assert(ss2.drop_first() =~= Seq::<Seq<char>>::empty());
        assert(template@.subrange(start as int, tl as int) + Seq::<char>::empty()
            =~= template@.subrange(start as int, tl as int));
        assert(segs.deep_view() =~~= old_segs.push(
            template@.subrange(start as int, tl as int),
        ));
        assert(segs.deep_view() =~~= star_split(template@));
    }
    segs
}

/// Result of prefixing already-extracted captures onto the outcome of
/// extracting the remaining segments.
spec fn prepend_caps(pre: Seq<Seq<char>>, r: Option<(Seq<Seq<char>>, int)>) -> Option<
    (Seq<Seq<char>>, int),
> {
    match r {
        Some(t) => Some((pre + t.0, t.1)),
        None => None,
    }
}

/// Extracts the wildcard captures of one filename against the pattern's
/// literal segments, following `captures_of`; `None` when the filename
/// does not decompose against them.
fn extract_one(segs: &Vec<String>, filename: &str) -> (r: Option<Vec<String>>)
    requires
        segs@.len() >= 1,
    ensures
        match r {
            Some(caps) => captures_of(segs.deep_view(), filename@) == Some(caps.deep_view()),
            None => captures_of(segs.deep_view(), filename@) is None,
        },
{
    let ghost gsegs = segs.deep_view();
    let fl = filename.unicode_len();
    let s0l = segs[0].as_str().unicode_len();
    proof {
        assert(gsegs[0] == segs@[0]@);
    }
    if s0l > fl {
        return None;
    }
    if !str_eq_at(filename, segs[0].as_str(), 0) {
        return None;
    }
    let nsegs = segs.len();
    let mut caps: Vec<String> = Vec::new();
    let mut shift: usize = s0l;
    let mut k: usize = 1;
    proof {
        assert(matches_prefix(gsegs[0], filename@));
        assert(caps.deep_view() =~~= Seq::<Seq<char>>::empty());
        assert(prepend_caps(caps.deep_view(), extract_from(gsegs, filename@, 1, s0l as int))
            == extract_from(gsegs, filename@, 1, s0l as int));
    }
    while k < nsegs
        invariant
            1 <= k <= nsegs,
            shift <= fl,
            fl == filename@.len(),
            nsegs == segs@.len(),
            gsegs == segs.deep_view(),
            gsegs.len() == nsegs,
            s0l == gsegs[0].len(),
            matches_prefix(gsegs[0], filename@),
            extract_from(gsegs, filename@, 1, s0l as int) == prepend_caps(
                caps.deep_view(),
                extract_from(gsegs, filename@, k as int, shift as int),
            ),
        decreases nsegs - k,
    {
        let ghost old_caps = caps.deep_view();
        let ghost old_shift = shift as int;
        proof {
            assert(gsegs[k as int] == segs@[k as int]@);
        }
        let sl = segs[k].as_str().unicode_len();
        if sl == 0 {
            if k == nsegs - 1 {
                let part = filename.substring_char(shift, fl).to_owned();
                caps.push(part);
                shift = fl;
                proof {
                    assert(extract_from(gsegs, filename@, k as int, old_shift) == Some(
                        (seq![filename@.subrange(old_shift, fl as int)], fl as int),
                    ));
                    assert(caps.deep_view() =~~= old_caps.push(
                        filename@.subrange(old_shift, fl as int),
                    ));
                    assert(old_caps + seq![filename@.subrange(old_shift, fl as int)]
                        =~~= caps.deep_view());
                    assert(caps.deep_view() + Seq::<Seq<char>>::empty() =~~= caps.deep_view());
                }
            } else {
                caps.push(String::new());
                proof {
                    let rest = extract_from(gsegs, filename@, k + 1, old_shift);
                    assert(extract_from(gsegs, filename@, k as int, old_shift) == prepend_caps(
                        seq![Seq::<char>::empty()],
                        rest,
                    ));
                    assert(caps.deep_view() =~~= old_caps.push(Seq::<char>::empty()));
                    if let Some(t) = rest {
                        assert(old_caps + (seq![Seq::<char>::empty()] + t.0) =~~= caps.deep_view()
                            + t.0);
                    }
                }
            }
            k = k + 1;
        } else {
            let found = find_from(filename, segs[k].as_str(), shift);
            match found {
                Some(p) => {
                    proof {
                        lemma_first_match_props(filename@, gsegs[k as int], old_shift);
                    }
                    let part = filename.substring_char(shift, p).to_owned();
                    caps.push(part);
                    shift = p + sl;
                    k = k + 1;
                    proof {
                        let rest = extract_from(gsegs, filename@, k as int, shift as int);
                        assert(extract_from(gsegs, filename@, k - 1, old_shift) == prepend_caps(
                            seq![filename@.subrange(old_shift, p as int)],
                            rest,
                        ));
                        assert(caps.deep_view() =~~= old_caps.push(
                            filename@.subrange(old_shift, p as int),
                        ));
                        if let Some(t) = rest {
                            assert(old_caps + (seq![filename@.subrange(old_shift, p as int)] + t.0)
                                =~~= caps.deep_view() + t.0);
                        }
                    }
                },
                None => {
                    proof {
                        assert(extract_from(gsegs, filename@, k as int, shift as int) is None);
                    }
                    return None;
                },
            }
        }
    }
    proof {
        assert(extract_from(gsegs, filename@, nsegs as int, shift as int) == Some(
            (Seq::<Seq<char>>::empty(), shift as int),
        ));
        assert(caps.deep_view() + Seq::<Seq<char>>::empty() =~~= caps.deep_view());
    }
    Some(caps)
}

/// Filenames that decompose against the pattern's segments, kept in
/// input order; a filename that fails to decompose is silently dropped.
pub open spec fn kept_files(segs: Seq<Seq<char>>, files: Seq<Seq<char>>) -> Seq<Seq<char>>
    decreases files.len(),
{
    if files.len() == 0 {
        Seq::<Seq<char>>::empty()
    } else {
        let rest = kept_files(segs, files.drop_last());
        if captures_of(segs, files.last()) is Some {
            rest.push(files.last())
        } else {
            rest
        }
    }
}

/// Capture sets of the kept filenames, parallel to `kept_files`.
pub open spec fn kept_captures(segs: Seq<Seq<char>>, files: Seq<Seq<char>>) -> Seq<Seq<Seq<char>>>
    decreases files.len(),
{
    if files.len() == 0 {
        Seq::<Seq<Seq<char>>>::empty()
    } else {
        let rest = kept_captures(segs, files.drop_last());
        match captures_of(segs, files.last()) {
            Some(caps) => rest.push(caps),
            None => rest,
        }
    }
}

/// Policy for a filename that fails to decompose against the source
/// pattern's literal segments.
#[derive(Debug, PartialEq, Eq, Structural, Clone, Copy)]
pub enum MatchPolicy {
    /// Drop the filename from the capture table silently.
    SkipUnmatched,
    /// Fail the whole batch, naming the first offending filename.
    RejectUnmatched,
}

/// Error for a filename that does not decompose against the source
/// pattern, under `MatchPolicy::RejectUnmatched`.
#[derive(Debug, PartialEq)]
pub struct UnmatchedFileError {
    /// The first filename that failed to decompose.
    pub filename: String,
}

/// When every filename in the batch decomposes against the pattern,
/// none is dropped: the capture table pairs every filename, in input
/// order, with its own captures.
pub proof fn lemma_kept_all(segs: Seq<Seq<char>>, files: Seq<Seq<char>>)
    requires
        forall|i: int| 0 <= i < files.len() ==> captures_of(segs, #[trigger] files[i]) is Some,
    ensures
        kept_files(segs, files) == files,
        kept_captures(segs, files).len() == files.len(),
        forall|i: int|
            0 <= i < files.len() ==> kept_captures(segs, files)[i] == captures_of(
                segs,
                #[trigger] files[i],
            )->Some_0,
    decreases files.len(),
{
    if files.len() == 0 {
        assert(kept_files(segs, files) =~~= files);
    } else {
        let head = files.drop_last();
        assert(forall|j: int| 0 <= j < head.len() ==> #[trigger] head[j] == files[j]);
        lemma_kept_all(segs, head);
        assert(captures_of(segs, files.last()) is Some);
        assert(kept_files(segs, files) == kept_files(segs, head).push(files.last()));
        assert(kept_files(segs, files) =~~= files);
        assert(kept_captures(segs, files) == kept_captures(segs, head).push(
            captures_of(segs, files.last())->Some_0,
        ));
    }
}

/// Holds the wildcard pattern's captures for a batch of filenames and
/// builds the renamed counterparts from a parsed target template.
#[derive(Debug, PartialEq)]
pub struct MoveBuilder {
    /// Number of wildcards the operation works with: the capture count
    /// of the first kept filename, or 0 when none was kept.
    pub asterisk_number: usize,
    /// The kept filenames, in input order.
    pub filenames: Vec<String>,
    /// Per kept filename, the substrings its wildcards captured.
    pub asterisk_sequences: Vec<Vec<String>>,
}

impl MoveBuilder {
    /// Each kept filename carries exactly `asterisk_number` captures.
    pub open spec fn wf(&self) -> bool {
        &&& self.filenames@.len() == self.asterisk_sequences@.len()
        &&& forall|i: int|
            0 <= i < self.asterisk_sequences@.len() ==> (#[trigger] self.asterisk_sequences@[i])@.len()
                == self.asterisk_number
    }

    /// Builds the capture table for `files_to_move` against the wildcard
    /// pattern `template`: filenames that do not decompose against the
    /// pattern's literal segments are silently dropped.
    pub fn new(template: &str, files_to_move: &Vec<String>) -> (r: MoveBuilder)
        ensures
            r.wf(),
            r.filenames.deep_view() == kept_files(
                star_split(template@),
                files_to_move.deep_view(),
            ),
            r.asterisk_sequences.deep_view() == kept_captures(
                star_split(template@),
                files_to_move.deep_view(),
            ),
            r.asterisk_number == if r.asterisk_sequences@.len() == 0 {
                0int
            } else {
                star_split(template@).len() - 1
            },
    {
        match Self::with_policy(template, files_to_move, MatchPolicy::SkipUnmatched) {
            Ok(b) => b,
            Err(_) => vstd::pervasive::unreached(),
        }
    }

    /// Builds the capture table for `files_to_move` against the wildcard
    /// pattern `template`, treating a filename that fails to decompose
    /// as `policy` directs: dropped silently, or fatal to the batch.
    /// Under `MatchPolicy::SkipUnmatched` the call always succeeds.
    pub fn with_policy(template: &str, files_to_move: &Vec<String>, policy: MatchPolicy) -> (r:
        Result<MoveBuilder, UnmatchedFileError>)
        ensures
            ({
                let segs = star_split(template@);
                let gfiles = files_to_move.deep_view();
                match r {
                    Ok(b) => {
                        &&& b.wf()
                        &&& b.filenames.deep_view() == kept_files(segs, gfiles)
                        &&& b.asterisk_sequences.deep_view() == kept_captures(segs, gfiles)
                        &&& b.asterisk_number == if b.asterisk_sequences@.len() == 0 {
                            0int
                        } else {
                            segs.len() - 1
                        }
                        &&& policy == MatchPolicy::RejectUnmatched ==> forall|i: int|
                            0 <= i < gfiles.len() ==> captures_of(segs, #[trigger] gfiles[i]) is Some
                    },
                    Err(e) => {
                        &&& policy == MatchPolicy::RejectUnmatched
                        &&& exists|i: int|
                            {
                                &&& 0 <= i < gfiles.len()
                                &&& captures_of(segs, #[trigger] gfiles[i]) is None
                                &&& e.filename@ == gfiles[i]
                                &&& forall|j: int|
                                    0 <= j < i ==> captures_of(segs, #[trigger] gfiles[j]) is Some
                            }
                    },
                }
            }),
            policy == MatchPolicy::SkipUnmatched ==> r is Ok,
    {
        let ghost gsegs = star_split(template@);
        let ghost gfiles = files_to_move.deep_view();
        let segs = split_pattern(template);
        let mut filenames: Vec<String> = Vec::new();
        let mut seqs: Vec<Vec<String>> = Vec::new();
        let n = files_to_move.len();
        let mut i: usize = 0;
        proof {
            assert(gfiles.take(0) =~= Seq::<Seq<char>>::empty());
            assert(filenames.deep_view() =~~= kept_files(gsegs, gfiles.take(0)));
            assert(seqs.deep_view() =~~= kept_captures(gsegs, gfiles.take(0)));
        }
        while i < n
            invariant
                i <= n,
                n == files_to_move@.len(),
                gfiles == files_to_move.deep_view(),
                gfiles.len() == n,
                gsegs == star_split(template@),
                segs.deep_view() == gsegs,
                segs@.len() >= 1,
                filenames.deep_view() == kept_files(gsegs, gfiles.take(i as int)),
                seqs.deep_view() == kept_captures(gsegs, gfiles.take(i as int)),
                filenames@.len() == seqs@.len(),
                forall|j: int|
                    0 <= j < seqs@.len() ==> (#[trigger] seqs@[j])@.len() == gsegs.len() - 1,
                policy == MatchPolicy::RejectUnmatched ==> forall|j: int|
                    0 <= j < i ==> captures_of(gsegs, #[trigger] gfiles[j]) is Some,
            decreases n - i,
        {
            let ghost old_names = filenames.deep_view();
            let ghost old_seqs = seqs.deep_view();
            proof {
                assert(gfiles[i as int] == files_to_move@[i as int]@);
                assert(gfiles.take(i + 1).drop_last() =~= gfiles.take(i as int));
                assert(gfiles.take(i + 1).last() == gfiles[i as int]);
            }
            match extract_one(&segs, files_to_move[i].as_str()) {
                Some(caps) => {
                    proof {
                        lemma_captures_len(gsegs, gfiles[i as int]);
                    }
                    filenames.push(files_to_move[i].clone());
                    seqs.push(caps);
                    proof {
                        assert(filenames.deep_view() =~~= old_names.push(gfiles[i as int]));
                        assert(seqs.deep_view() =~~= old_seqs.push(
                            captures_of(gsegs, gfiles[i as int])->Some_0,
                        ));
                    }
                },
                None => {
                    match policy {
                        MatchPolicy::SkipUnmatched => {},
                        MatchPolicy::RejectUnmatched => {
                            return Err(
                                UnmatchedFileError { filename: files_to_move[i].clone() },
                            );
                        },
                    }
                },
            }
            i = i + 1;
        }
        proof {
            assert(gfiles.take(n as int) =~= gfiles);
        }
        let asterisk_number: usize = if seqs.len() == 0 {
            0
        } else {
            seqs[0].len()
        };
        Ok(MoveBuilder { asterisk_number, filenames, asterisk_sequences: seqs })
    }
}

/// Whether `c` is a digit a placeholder may carry: `1` through `9`.
pub open spec fn is_placeholder_digit(c: char) -> bool {
    '1' as u32 <= c as u32 && c as u32 <= '9' as u32
}

/// The wildcard index named by a placeholder digit, 1-based.
pub open spec fn placeholder_index(c: char) -> usize {
    (c as u32 - '0' as u32) as usize
}

/// Whether a placeholder token `#d` with `d` a digit `1`-`9` starts at
/// position `i` of `s`.  A `#` in last position, or followed by anything
/// else, is literal text.
pub open spec fn placeholder_at(s: Seq<char>, i: int) -> bool {
    &&& 0 <= i
    &&& i + 1 < s.len()
    &&& s[i] == '#'
    &&& is_placeholder_digit(s[i + 1])
}

/// Parse of the suffix of `s` from position `i`: the stable parts the
/// placeholders split it into, and the wildcard indices the placeholders
/// name, in order and with repeats kept.  The stable parts are always
/// one more than the indices.
pub open spec fn parse_from(s: Seq<char>, i: int) -> (Seq<Seq<char>>, Seq<usize>)
    decreases s.len() - i,
{
    if i < 0 || i >= s.len() {
        (seq![Seq::<char>::empty()], Seq::<usize>::empty())
    } else if placeholder_at(s, i) {
        let r = parse_from(s, i + 2);
        (seq![Seq::<char>::empty()] + r.0, seq![placeholder_index(s[i + 1])] + r.1)
    } else {
        let r = parse_from(s, i + 1);
        (seq![seq![s[i]] + r.0[0]] + r.0.drop_first(), r.1)
    }
}

/// Parse of a whole target template string.
pub open spec fn parse_template(s: Seq<char>) -> (Seq<Seq<char>>, Seq<usize>) {
    parse_from(s, 0)
}

/// A parse yields one more stable part than indices, and every index
/// lies between 1 and 9.
pub proof fn lemma_parse_from_wf(s: Seq<char>, i: int)
    ensures
        parse_from(s, i).0.len() == parse_from(s, i).1.len() + 1,
        forall|j: int|
            0 <= j < parse_from(s, i).1.len() ==> 1 <= #[trigger] parse_from(s, i).1[j] <= 9,
    decreases s.len() - i,
{
    if i < 0 || i >= s.len() {
    } else if placeholder_at(s, i) {
        lemma_parse_from_wf(s, i + 2);
    } else {
        lemma_parse_from_wf(s, i + 1);
    }
}

/// A target naming template, parsed: the literal text around the
/// placeholders, and the 1-based wildcard index each placeholder names.
#[derive(Debug, PartialEq)]
pub struct ParsedTarget {
    /// Literal text between, before and after the placeholders; always
    /// one part more than there are placeholders.
    pub stable_filename_parts: Vec<String>,
    /// For each placeholder in template order, the wildcard index it
    /// names; repeats are kept.
    pub template_index_sequence: Vec<usize>,
}

impl ParsedTarget {
    /// Stable parts alternate with placeholders, and every recorded
    /// index lies between 1 and 9.
    pub open spec fn wf(&self) -> bool {
        &&& self.stable_filename_parts@.len() == self.template_index_sequence@.len() + 1
        &&& forall|j: int|
            0 <= j < self.template_index_sequence@.len() ==> 1 <= #[trigger] self.template_index_sequence@[j]
                <= 9
    }

    /// Parses a target template string: each token `#d` with `d` a digit
    /// `1`-`9` is a placeholder, everything else is stable text.
    pub fn new(target_template: &str) -> (r: ParsedTarget)
        ensures
            r.wf(),
            r.stable_filename_parts.deep_view() == parse_template(target_template@).0,
            r.template_index_sequence@ == parse_template(target_template@).1,
    {
        let ghost s = target_template@;
        let tl = target_template.unicode_len();
        let mut parts: Vec<String> = Vec::new();
        let mut idxs: Vec<usize> = Vec::new();
        let mut start: usize = 0;
        let mut i: usize = 0;
        proof {
            lemma_parse_from_wf(s, 0);
            let r = parse_from(s, 0);
            assert(r.0 =~~= Seq::<Seq<char>>::empty() + seq![s.subrange(0, 0) + r.0[0]]
                + r.0.drop_first());
            assert(r.1 =~= Seq::<usize>::empty() + r.1);
        }
        while i < tl
            invariant
                start <= i <= tl,
                tl == s.len(),
                s == target_template@,
                parse_from(s, 0).0 == parts.deep_view() + seq![
                    s.subrange(start as int, i as int) + parse_from(s, i as int).0[0],
                ] + parse_from(s, i as int).0.drop_first(),
                parse_from(s, 0).1 == idxs@ + parse_from(s, i as int).1,
            decreases tl - i,
        {
            proof {
                lemma_parse_from_wf(s, i + 1);
                lemma_parse_from_wf(s, i + 2);
            }
            let c = target_template.get_char(i);
            let mut is_placeholder = false;
            let mut digit: u32 = 0;
            if c == '#' && i + 1 < tl {
                let d = target_template.get_char(i + 1);
                let dv = d as u32;
                if '1' as u32 <= dv && dv <= '9' as u32 {
                    is_placeholder = true;
                    digit = dv;
                }
            }
            if is_placeholder {
                let ghost old_parts = parts.deep_view();
                let ghost old_idxs = idxs@;
                let part = target_template.substring_char(start, i).to_owned();
                parts.push(part);
                idxs.push((digit - '0' as u32) as usize);
                proof {
                    assert(placeholder_at(s, i as int));
                    let r = parse_from(s, i + 2);
                    assert(parse_from(s, i as int).0 == seq![Seq::<char>::empty()] + r.0);
                    assert(parse_from(s, i as int).1 == seq![placeholder_index(s[i + 1])] + r.1);
                    assert(parts.deep_view() =~~= old_parts.push(
                        s.subrange(start as int, i as int),
                    ));
                    assert(idxs@ =~= old_idxs.push(placeholder_index(s[i + 1])));
                    assert(s.subrange(start as int, i as int) + Seq::<char>::empty() =~= s.subrange(
                        start as int,
                        i as int,
                    ));
                    assert((seq![Seq::<char>::empty()] + r.0)[0] == Seq::<char>::empty());
                    assert((seq![Seq::<char>::empty()] + r.0).drop_first() =~~= r.0);
                    assert(r.0 =~~= seq![r.0[0]] + r.0.drop_first());
                    assert(parse_from(s, 0).0 =~~= parts.deep_view() + seq![
                        s.subrange(i + 2, i + 2) + r.0[0],
                    ] + r.0.drop_first());
                    assert(parse_from(s, 0).1 =~= idxs@ + r.1);
                }
                i = i + 2;
                start = i;
            } else {
                proof {
                    assert(!placeholder_at(s, i as int));
                    let r = parse_from(s, i + 1);
                    assert(parse_from(s, i as int).0 == seq![seq![s[i as int]] + r.0[0]]
                        + r.0.drop_first());
                    assert(parse_from(s, i as int).1 == r.1);
                    assert(s.subrange(start as int, i as int) + (seq![s[i as int]] + r.0[0])
                        =~= s.subrange(start as int, i + 1) + r.0[0]);
                    assert(parse_from(s, 0).0 =~~= parts.deep_view() + seq![
                        s.subrange(start as int, i + 1) + r.0[0],
                    ] + r.0.drop_first());
                }
                i = i + 1;
            }
        }
        let ghost old_parts = parts.deep_view();
        let part = target_template.substring_char(start, tl).to_owned();
        parts.push(part);
        proof {
            let r = parse_from(s, tl as int);
            assert(r.0 == seq![Seq::<char>::empty()]);
            assert(r.1 == Seq::<usize>::empty());
            assert(r.0.drop_first() =~~= Seq::<Seq<char>>::empty());
            assert(s.subrange(start as int, tl as int) + Seq::<char>::empty() =~= s.subrange(
                start as int,
                tl as int,
            ));
            assert(parts.deep_view() =~~= old_parts.push(s.subrange(start as int, tl as int)));
            assert(parts.deep_view() =~~= parse_from(s, 0).0);
            assert(idxs@ + r.1 =~= idxs@);
            lemma_parse_from_wf(s, 0);
        }
        ParsedTarget { stable_filename_parts: parts, template_index_sequence: idxs }
    }
}

/// Largest value in a sequence of indices, or 0 when it is empty.
pub open spec fn max_index(idxs: Seq<usize>) -> usize
    decreases idxs.len(),
{
    if idxs.len() == 0 {
        0usize
    } else {
        let m = max_index(idxs.drop_last());
        if idxs.last() > m {
            idxs.last()
        } else {
            m
        }
    }
}

/// Largest placeholder index occurring in `idxs`, or 0 when there is none.
fn max_of_indices(idxs: &Vec<usize>) -> (m: usize)
    ensures
        m == max_index(idxs@),
{
    let mut m: usize = 0;
    let mut j: usize = 0;
    while j < idxs.len()
        invariant
            j <= idxs@.len(),
            m == max_index(idxs@.take(j as int)),
        decreases idxs@.len() - j,
    {
        proof {
            assert(idxs@.take(j + 1).drop_last() =~= idxs@.take(j as int));
            assert(idxs@.take(j + 1).last() == idxs@[j as int]);
        }
        if idxs[j] > m {
            m = idxs[j];
        }
        j = j + 1;
    }
    proof {
        assert(idxs@.take(idxs@.len() as int) =~= idxs@);
    }
    m
}

/// No index exceeds the largest.
pub proof fn lemma_max_index_bounds(idxs: Seq<usize>)
    ensures
        forall|j: int| 0 <= j < idxs.len() ==> #[trigger] idxs[j] <= max_index(idxs),
    decreases idxs.len(),
{
    if idxs.len() > 0 {
        lemma_max_index_bounds(idxs.drop_last());
        assert(forall|j: int|
            0 <= j < idxs.len() - 1 ==> #[trigger] idxs[j] == idxs.drop_last()[j]);
    }
}

/// The capture substrings that fill a template's placeholder positions,
/// in template order: position `j` is filled by the capture the 1-based
/// index `idxs[j]` names.
pub open spec fn fillers(idxs: Seq<usize>, caps: Seq<Seq<char>>) -> Seq<Seq<char>> {
    idxs.map_values(|j: usize| caps[j - 1])
}

/// The names a parsed target template synthesizes for a whole capture
/// table, one per kept filename, in table order.
pub open spec fn composed_names(
    stable: Seq<Seq<char>>,
    idxs: Seq<usize>,
    tables: Seq<Seq<Seq<char>>>,
) -> Seq<Seq<char>> {
    tables.map_values(|caps: Seq<Seq<char>>| interleave(stable, fillers(idxs, caps)))
}

/// Synthesizes one name: the template's stable parts interleaved with
/// the captures its placeholders name.
fn compose_one(parsed: &ParsedTarget, caps: &Vec<String>) -> (out: String)
    requires
        parsed.wf(),
        forall|j: int|
            0 <= j < parsed.template_index_sequence@.len()
                ==> #[trigger] parsed.template_index_sequence@[j] <= caps@.len(),
    ensures
        out@ == interleave(
            parsed.stable_filename_parts.deep_view(),
            fillers(parsed.template_index_sequence@, caps.deep_view()),
        ),
{
    let ghost gparts = parsed.stable_filename_parts.deep_view();
    let ghost gf = fillers(parsed.template_index_sequence@, caps.deep_view());
    let nidx = parsed.template_index_sequence.len();
    let mut out: String = parsed.stable_filename_parts[0].clone();
    let mut j: usize = 0;
    proof {
        assert(gf.skip(0) =~~= gf);
        assert(gparts.skip(1) =~~= gparts.drop_first());
        assert(out@ == gparts[0]);
    }
    while j < nidx
        invariant
            j <= nidx,
            nidx == parsed.template_index_sequence@.len(),
            parsed.wf(),
            forall|q: int|
                0 <= q < parsed.template_index_sequence@.len()
                    ==> #[trigger] parsed.template_index_sequence@[q] <= caps@.len(),
            gparts == parsed.stable_filename_parts.deep_view(),
            gf == fillers(parsed.template_index_sequence@, caps.deep_view()),
            gf.len() == nidx,
            interleave(gparts, gf) == out@ + weave(gf.skip(j as int), gparts.skip(j + 1)),
        decreases nidx - j,
    {
        let ghost old_out = out@;
        let idx = parsed.template_index_sequence[j];
        proof {
            assert(gf[j as int] == caps.deep_view()[idx - 1]);
            assert(caps.deep_view()[idx - 1] == caps@[idx - 1]@);
            assert(gparts[j + 1] == parsed.stable_filename_parts@[j + 1]@);
        }
        out.append(caps[idx - 1].as_str());
        out.append(parsed.stable_filename_parts[j + 1].as_str());
        proof {
            assert(gf.skip(j as int)[0] == gf[j as int]);
            assert(gparts.skip(j + 1)[0] == gparts[j + 1]);
            assert(gf.skip(j as int).drop_first() =~~= gf.skip(j + 1));
            assert(gparts.skip(j + 1).drop_first() =~~= gparts.skip(j + 2));
            assert(weave(gf.skip(j as int), gparts.skip(j + 1)) == gf[j as int] + gparts[j + 1]
                + weave(gf.skip(j + 1), gparts.skip(j + 2)));
            assert(out@ =~= old_out + gf[j as int] + gparts[j + 1]);
            assert(old_out + (gf[j as int] + gparts[j + 1] + weave(gf.skip(j + 1), gparts.skip(
                j + 2,
            ))) =~= out@ + weave(gf.skip(j + 1), gparts.skip(j + 2)));
        }
        j = j + 1;
    }
    proof {
        assert(gf.skip(nidx as int) =~~= Seq::<Seq<char>>::empty());
        assert(out@ + Seq::<char>::empty() =~= out@);
    }
    out
}

impl MoveBuilder {
    /// Synthesizes the target name of every kept filename from a parsed
    /// target template.  Fails, before any name is built, when the
    /// template names a wildcard index beyond the number of wildcards in
    /// the source pattern; otherwise returns the kept filenames paired
    /// positionally with their synthesized names, in input order.
    pub fn build_target_names(&self, parsed_target_template: &ParsedTarget) -> (r: Result<
        (Vec<String>, Vec<String>),
        TemplateError,
    >)
        requires
            self.wf(),
            parsed_target_template.wf(),
        ensures
            ({
                let m = max_index(parsed_target_template.template_index_sequence@);
                if self.asterisk_number < m {
                    r == Err::<(Vec<String>, Vec<String>), TemplateError>(
                        TemplateError { asterisks: self.asterisk_number, hashes: m },
                    )
                } else {
                    r matches Ok(pair) && pair.0.deep_view() == self.filenames.deep_view()
                        && pair.1.deep_view() == composed_names(
                        parsed_target_template.stable_filename_parts.deep_view(),
                        parsed_target_template.template_index_sequence@,
                        self.asterisk_sequences.deep_view(),
                    )
                }
            }),
    {
        let ghost gparts = parsed_target_template.stable_filename_parts.deep_view();
        let ghost gidxs = parsed_target_template.template_index_sequence@;
        let ghost gtables = self.asterisk_sequences.deep_view();
        let max_target_template_number = max_of_indices(
            &parsed_target_template.template_index_sequence,
        );
        if self.asterisk_number < max_target_template_number {
            Err(
                TemplateError {
                    asterisks: self.asterisk_number,
                    hashes: max_target_template_number,
                },
            )
        } else {
            proof {
                lemma_max_index_bounds(gidxs);
            }
            let mut final_target_filenames: Vec<String> = Vec::new();
            let n = self.filenames.len();
            let mut i: usize = 0;
            proof {
                assert(gtables.take(0) =~~= Seq::<Seq<Seq<char>>>::empty());
                assert(final_target_filenames.deep_view() =~~= composed_names(
                    gparts,
                    gidxs,
                    gtables.take(0),
                ));
            }
            while i < n
                invariant
                    i <= n,
                    n == self.filenames@.len(),
                    self.wf(),
                    parsed_target_template.wf(),
                    self.asterisk_number >= max_index(gidxs),
                    forall|j: int| 0 <= j < gidxs.len() ==> #[trigger] gidxs[j] <= max_index(gidxs),
                    gparts == parsed_target_template.stable_filename_parts.deep_view(),
                    gidxs == parsed_target_template.template_index_sequence@,
                    gtables == self.asterisk_sequences.deep_view(),
                    gtables.len() == n,
                    final_target_filenames.deep_view() == composed_names(
                        gparts,
                        gidxs,
                        gtables.take(i as int),
                    ),
                decreases n - i,
            {
                let ghost old_names = final_target_filenames.deep_view();
                proof {
                    assert(self.asterisk_sequences@[i as int]@.len() == self.asterisk_number);
                    assert(gtables[i as int] == self.asterisk_sequences@[i as int].deep_view());
                }
                let name = compose_one(parsed_target_template, &self.asterisk_sequences[i]);
                final_target_filenames.push(name);
                proof {
                    assert(final_target_filenames.deep_view() =~~= old_names.push(
                        interleave(gparts, fillers(gidxs, gtables[i as int])),
                    ));
                    assert(gtables.take(i + 1).drop_last() =~= gtables.take(i as int));
                    assert(final_target_filenames.deep_view() =~~= composed_names(
                        gparts,
                        gidxs,
                        gtables.take(i + 1),
                    ));
                }
                i = i + 1;
            }
            proof {
                assert(gtables.take(n as int) =~~= gtables);
            }
            let originals = self.filenames.clone();
            proof {
                assert(originals.deep_view() =~~= self.filenames.deep_view());
            }
            Ok((originals, final_target_filenames))
        }
    }
}

/// The index sequence of the identity template `#1#2...#k`: the
/// placeholders name the wildcards in order, each exactly once.
pub open spec fn identity_indices(k: int) -> Seq<usize> {
    Seq::new(k as nat, |i: int| (i + 1) as usize)
}

/// The identity template's placeholders are filled with the captures
/// themselves, in order.
pub proof fn lemma_identity_fillers(caps: Seq<Seq<char>>)
    requires
        caps.len() <= usize::MAX,
    ensures
        fillers(identity_indices(caps.len() as int), caps) == caps,
{
    assert(fillers(identity_indices(caps.len() as int), caps) =~~= caps);
}

/// Law: capture/compose round trip.  For any pattern and any filename
/// whose extraction succeeds and consumes the filename in full (the
/// final cursor stands at its end), interleaving the pattern's own
/// literal segments with the extracted captures — that is, composing
/// with the identity template `#1#2...#k` written between the pattern's
/// literal segments — reproduces the original filename.
pub proof fn theorem_capture_compose_round_trip(
    pattern: Seq<char>,
    f: Seq<char>,
    caps: Seq<Seq<char>>,
    end: int,
)
    requires
        extraction_of(star_split(pattern), f) == Some((caps, end)),
        end == f.len(),
    ensures
        interleave(star_split(pattern), caps) == f,
{
    let segs = star_split(pattern);
    lemma_star_split_nonempty(pattern);
    assert(matches_prefix(segs[0], f));
    lemma_extract_from_tiles(segs, f, 1, segs[0].len() as int);
    assert(f.subrange(segs[0].len() as int, end) == weave(caps, segs.skip(1)));
    assert(segs.drop_first() =~~= segs.skip(1));
    assert(interleave(segs, caps) == segs[0] + weave(caps, segs.skip(1)));
    assert(f =~= f.subrange(0, segs[0].len() as int) + f.subrange(segs[0].len() as int, end));
}

/// An occurrence of `needle` at position `o` guarantees that the
/// leftmost search from any earlier position succeeds, at or before `o`.
pub proof fn lemma_first_match_finds(hay: Seq<char>, needle: Seq<char>, from: int, o: int)
    requires
        0 <= from <= o,
        o + needle.len() <= hay.len(),
        hay.subrange(o, o + needle.len()) == needle,
    ensures
        first_match(hay, needle, from) matches Some(p) && p <= o,
    decreases o - from,
{
    if needle.len() == 0 {
    } else if from == o {
    } else if hay.subrange(from, from + needle.len()) == needle {
    } else {
        lemma_first_match_finds(hay, needle, from + 1, o);
    }
}

/// Whether `f` is built from the pattern's literal segments with some
/// choice of capture substrings: the mathematical sense of "the filename
/// matches the pattern".
pub open spec fn pattern_matches(segs: Seq<Seq<char>>, f: Seq<char>) -> bool {
    exists|caps: Seq<Seq<char>>| caps.len() == segs.len() - 1 && f == interleave(segs, caps)
}

/// Extraction of the remaining segments succeeds whenever the remainder
/// of `f` from some position at or after the cursor is tiled by them
/// with some choice of captures.
proof fn lemma_extract_from_total(
    segs: Seq<Seq<char>>,
    f: Seq<char>,
    k: int,
    shift: int,
    t: int,
    caps: Seq<Seq<char>>,
)
    requires
        1 <= k <= segs.len(),
        0 <= shift <= t <= f.len(),
        caps.len() == segs.len() - k,
        f.subrange(t, f.len() as int) == weave(caps, segs.skip(k)),
    ensures
        extract_from(segs, f, k, shift) is Some,
    decreases segs.len() - k,
{
    if k == segs.len() {
    } else {
        assert(segs.skip(k)[0] == segs[k]);
        assert(caps.drop_first() =~~= caps.skip(1));
        assert(segs.skip(k).drop_first() =~~= segs.skip(k + 1));
        let tail = weave(caps.drop_first(), segs.skip(k + 1));
        assert(f.subrange(t, f.len() as int) == caps[0] + segs[k] + tail);
        let o = t + caps[0].len();
        let t2 = o + segs[k].len();
        assert(t2 + tail.len() == f.len());
        assert(f.subrange(o, t2) =~= segs[k]) by {
            assert(forall|q: int|
                0 <= q < segs[k].len() ==> #[trigger] segs[k][q] == f.subrange(
                    t,
                    f.len() as int,
                )[caps[0].len() + q]);
        }
        assert(f.subrange(t2, f.len() as int) =~= tail) by {
            assert(forall|q: int|
                0 <= q < tail.len() ==> #[trigger] tail[q] == f.subrange(t, f.len() as int)[caps[0].len()
                    + segs[k].len() + q]);
        }
        if segs[k].len() == 0 {
            if k == segs.len() - 1 {
            } else {
                lemma_extract_from_total(segs, f, k + 1, shift, t2, caps.drop_first());
            }
        } else {
            lemma_first_match_finds(f, segs[k], shift, o);
            lemma_first_match_props(f, segs[k], shift);
            let p = first_match(f, segs[k], shift)->Some_0;
            lemma_extract_from_total(segs, f, k + 1, p + segs[k].len(), t2, caps.drop_first());
        }
    }
}

/// Law: a filename that matches the pattern is never dropped.  Whenever
/// some choice of captures builds the filename from the pattern's
/// literal segments, left-to-right extraction succeeds on it; only a
/// filename that no captures can reconcile with the pattern is excluded
/// from the capture table.
pub proof fn theorem_matching_file_decomposes(pattern: Seq<char>, f: Seq<char>)
    requires
        pattern_matches(star_split(pattern), f),
    ensures
        captures_of(star_split(pattern), f) is Some,
{
    let segs = star_split(pattern);
    lemma_star_split_nonempty(pattern);
    let caps = choose|caps: Seq<Seq<char>>|
        caps.len() == segs.len() - 1 && f == interleave(segs, caps);
    assert(segs.drop_first() =~~= segs.skip(1));
    assert(f == segs[0] + weave(caps, segs.skip(1)));
    let s0l = segs[0].len() as int;
    assert(f.subrange(0, s0l) =~= segs[0]);
    assert(matches_prefix(segs[0], f));
    assert(f.subrange(s0l, f.len() as int) =~= weave(caps, segs.skip(1)));
    lemma_extract_from_total(segs, f, 1, s0l, s0l, caps);
}

/// A pattern ending in the wildcard marker splits into at least two
/// segments, the last of which is empty.
pub proof fn lemma_star_split_trailing(s: Seq<char>)
    requires
        s.len() > 0,
        s.last() == '*',
    ensures
        star_split(s).len() >= 2,
        star_split(s).last().len() == 0,
    decreases s.len(),
{
    if s.len() == 1 {
        assert(s.drop_first() =~= Seq::<char>::empty());
    } else {
        assert(s.drop_first().last() == s.last());
        lemma_star_split_trailing(s.drop_first());
    }
}

/// With a trailing wildcard, extraction of the remaining segments always
/// consumes the filename in full: the final cursor stands at its end.
pub proof fn lemma_trailing_wildcard_consumes_all(
    segs: Seq<Seq<char>>,
    f: Seq<char>,
    k: int,
    shift: int,
)
    requires
        1 <= k < segs.len(),
        segs.last().len() == 0,
    ensures
        extract_from(segs, f, k, shift) matches Some(r) ==> r.1 == f.len(),
    decreases segs.len() - k,
{
    if segs[k].len() == 0 {
        if k < segs.len() - 1 {
            lemma_trailing_wildcard_consumes_all(segs, f, k + 1, shift);
        }
    } else {
        assert(k < segs.len() - 1);
        if let Some(p) = first_match(f, segs[k], shift) {
            lemma_trailing_wildcard_consumes_all(segs, f, k + 1, p + segs[k].len());
        }
    }
}

/// Law: unconditional round trip for trailing-wildcard patterns.  When
/// the pattern ends in the wildcard marker, every filename it
/// decomposes is consumed in full, so interleaving the pattern's
/// literal segments with the extracted captures — the identity template
/// — reproduces the filename with no further condition.
pub proof fn theorem_round_trip_trailing_wildcard(pattern: Seq<char>, f: Seq<char>)
    requires
        pattern.len() > 0,
        pattern.last() == '*',
        captures_of(star_split(pattern), f) is Some,
    ensures
        interleave(star_split(pattern), captures_of(star_split(pattern), f)->Some_0) == f,
{
    let segs = star_split(pattern);
    lemma_star_split_trailing(pattern);
    let r = extraction_of(segs, f)->Some_0;
    lemma_trailing_wildcard_consumes_all(segs, f, 1, segs[0].len() as int);
    theorem_capture_compose_round_trip(pattern, f, r.0, r.1);
}

/// Law: placeholder reuse.  Two placeholder positions naming the same
/// wildcard index are filled with the same captured substring, however
/// often the index is repeated in the template.
pub proof fn theorem_placeholder_reuse(idxs: Seq<usize>, caps: Seq<Seq<char>>, a: int, b: int)
    requires
        0 <= a < idxs.len(),
        0 <= b < idxs.len(),
        idxs[a] == idxs[b],
    ensures
        fillers(idxs, caps)[a] == fillers(idxs, caps)[b],
{
}

/// Law: determinism.  The synthesized name sequence is a function of
/// the pattern, the filename list and the parsed template alone; the
/// contracts of `MoveBuilder::new`, `ParsedTarget::new` and
/// `build_target_names` pin their results to exactly these spec
/// functions, so repeated invocations on identical inputs yield
/// identical, order-preserving output sequences.
pub proof fn theorem_determinism(
    pattern: Seq<char>,
    files: Seq<Seq<char>>,
    stable: Seq<Seq<char>>,
    idxs: Seq<usize>,
    names1: Seq<Seq<char>>,
    names2: Seq<Seq<char>>,
)
    requires
        names1 == composed_names(stable, idxs, kept_captures(star_split(pattern), files)),
        names2 == composed_names(stable, idxs, kept_captures(star_split(pattern), files)),
    ensures
        names1 == names2,
{
}

} // verus!
