//! Reading the encoder's progress lines, such as `frame=   90 fps= 15 ...`.
use vstd::prelude::*;
use crate::text::{chars_of, parse_usize, parse_usize_spec};

verus! {

/// One progress report: the frame the encoder reached, the part of the
/// sequence done (the frame, at most the total), and the total.
pub struct ProgressEvent {
    pub frame: usize,
    pub completed: usize,
    pub total: usize,
}

/// The characters that `char::is_whitespace` accepts: those of Unicode's
/// White_Space property.
pub open spec fn is_space(c: char) -> bool {
    ('\u{9}' <= c && c <= '\u{d}') || c == ' ' || c == '\u{85}' || c == '\u{a0}' || c
        == '\u{1680}' || ('\u{2000}' <= c && c <= '\u{200a}') || c == '\u{2028}' || c
        == '\u{2029}' || c == '\u{202f}' || c == '\u{205f}' || c == '\u{3000}'
}

pub open spec fn frame_marker() -> Seq<char> {
    seq!['f', 'r', 'a', 'm', 'e', '=']
}

pub open spec fn occurs_at(s: Seq<char>, m: Seq<char>, k: int) -> bool {
    0 <= k && k + m.len() <= s.len() && s.subrange(k, k + m.len()) == m
}

/// The first position at or after `k` where `m` occurs in `s`.
pub open spec fn find_from(s: Seq<char>, m: Seq<char>, k: int) -> Option<int>
    decreases s.len() + 1 - k,
{
    if k < 0 || k + m.len() > s.len() {
        None
    } else if occurs_at(s, m, k) {
        Some(k)
    } else {
        find_from(s, m, k + 1)
    }
}

proof fn lemma_found_occurs(s: Seq<char>, m: Seq<char>, k: int)
    requires
        find_from(s, m, k) is Some,
    ensures
        occurs_at(s, m, find_from(s, m, k)->0),
        k <= find_from(s, m, k)->0,
    decreases s.len() + 1 - k,
{
    if !(k < 0 || k + m.len() > s.len()) && !occurs_at(s, m, k) {
        lemma_found_occurs(s, m, k + 1);
    }
}

/// How many characters at the start of `s` satisfy `space` (or fail it).
pub open spec fn leading_run(s: Seq<char>, space: bool) -> nat
    decreases s.len(),
{
    if s.len() > 0 && is_space(s[0]) == space {
        leading_run(s.drop_first(), space) + 1
    } else {
        0
    }
}

/// The first whitespace-separated word of `s`.
pub open spec fn first_word(s: Seq<char>) -> Seq<char> {
    let t = s.skip(leading_run(s, true) as int);
    t.take(leading_run(t, false) as int)
}

/// The frame number that a progress line reports: the first word of the
/// text between the first `frame=` and the next one, read as a number.
pub open spec fn progress_frame_spec(line: Seq<char>) -> Option<nat> {
    match find_from(line, frame_marker(), 0) {
        None => None,
        Some(k) => {
            let rest = line.skip(k + 6);
            let segment = match find_from(rest, frame_marker(), 0) {
                Some(j) => rest.take(j),
                None => rest,
            };
            let word = first_word(segment);
            if word.len() == 0 {
                None
            } else {
                parse_usize_spec(word)
            }
        },
    }
}

pub fn space(c: char) -> (r: bool)
    ensures
        r == is_space(c),
{
    ('\u{9}' <= c && c <= '\u{d}') || c == ' ' || c == '\u{85}' || c == '\u{a0}' || c
        == '\u{1680}' || ('\u{2000}' <= c && c <= '\u{200a}') || c == '\u{2028}' || c
        == '\u{2029}' || c == '\u{202f}' || c == '\u{205f}' || c == '\u{3000}'
}

fn occurs(s: &Vec<char>, m: &Vec<char>, k: usize) -> (r: bool)
    ensures
        r == occurs_at(s@, m@, k as int),
{
    if k > s.len() || m.len() > s.len() - k {
        return false;
    }
    let mut i: usize = 0;
    while i < m.len()
        invariant
            i <= m@.len(),
            k + m@.len() <= s@.len(),
            s@.len() <= usize::MAX,
            s@.subrange(k as int, k + i) == m@.take(i as int),
        decreases m@.len() - i,
    {
        if s[k + i] != m[i] {
            assert(s@.subrange(k as int, k + m@.len())[i as int] == s@[k + i]);
            return false;
        }
        assert(s@.subrange(k as int, k + i + 1) =~= s@.subrange(k as int, k + i).push(s@[k + i]));
        assert(m@.take(i + 1) =~= m@.take(i as int).push(m@[i as int]));
        i = i + 1;
    }
    assert(m@.take(m@.len() as int) =~= m@);
    true
}

fn find(s: &Vec<char>, m: &Vec<char>, from: usize) -> (r: Option<usize>)
    requires
        m@.len() > 0,
    ensures
        match r {
            Some(k) => find_from(s@, m@, from as int) == Some(k as int),
            None => find_from(s@, m@, from as int) is None,
        },
{
    let n = s.len();
    let mut k: usize = from;
    while k <= n && m.len() <= n - k
        invariant
            from <= k,
            m@.len() > 0,
            n == s@.len(),
            find_from(s@, m@, from as int) == find_from(s@, m@, k as int),
        decreases s@.len() + 1 - k,
    {
        if occurs(s, m, k) {
            return Some(k);
        }
        k = k + 1;
    }
    None
}

fn slice(s: &Vec<char>, from: usize, to: usize) -> (r: Vec<char>)
    requires
        from <= to <= s@.len(),
    ensures
        r@ == s@.subrange(from as int, to as int),
{
    let mut r: Vec<char> = Vec::new();
    let mut i: usize = from;
    while i < to
        invariant
            from <= i <= to <= s@.len(),
            r@ == s@.subrange(from as int, i as int),
        decreases to - i,
    {
        r.push(s[i]);
        assert(s@.subrange(from as int, i + 1) =~= s@.subrange(from as int, i as int).push(
            s@[i as int],
        ));
        i = i + 1;
    }
    r
}

/// The end of the run that starts at `from` of characters whose
/// whitespace-ness is `space_run`.
fn run_end(s: &Vec<char>, from: usize, space_run: bool) -> (r: usize)
    requires
        from <= s@.len(),
    ensures
        from <= r <= s@.len(),
        r - from == leading_run(s@.skip(from as int), space_run),
{
    let mut i: usize = from;
    while i < s.len() && space(s[i]) == space_run
        invariant
            from <= i <= s@.len(),
            leading_run(s@.skip(from as int), space_run) == (i - from) + leading_run(
                s@.skip(i as int),
                space_run,
            ),
        decreases s@.len() - i,
    {
        assert(s@.skip(i as int).drop_first() =~= s@.skip(i + 1));
        i = i + 1;
    }
    i
}

/// The frame number that a progress line reports, if it reports one.
pub fn progress_frame(line: &str) -> (r: Option<usize>)
    ensures
        match r {
            Some(v) => progress_frame_spec(line@) == Some(v as nat),
            None => progress_frame_spec(line@) is None,
        },
{
    let s = chars_of(line);
    let marker = vec!['f', 'r', 'a', 'm', 'e', '='];
    assert(marker@ =~= frame_marker());
    let k = match find(&s, &marker, 0) {
        None => {
            return None;
        },
        Some(k) => k,
    };
    proof {
        lemma_found_occurs(s@, frame_marker(), 0);
    }
    let n = s.len();
    assert(k + 6 <= n);
    let rest = slice(&s, k + 6, n);
    assert(rest@ =~= s@.skip(k + 6));
    proof {
        if find_from(rest@, frame_marker(), 0) is Some {
            lemma_found_occurs(rest@, frame_marker(), 0);
        }
    }
    let segment = match find(&rest, &marker, 0) {
        Some(j) => slice(&rest, 0, j),
        None => rest,
    };
    proof {
        if find_from(rest@, frame_marker(), 0) is Some {
            assert(segment@ =~= rest@.take(find_from(rest@, frame_marker(), 0)->0));
        }
    }
    let start = run_end(&segment, 0, true);
    assert(segment@.skip(0) =~= segment@);
    let end = run_end(&segment, start, false);
    let word = slice(&segment, start, end);
    assert(word@ =~= first_word(segment@));
    if word.len() == 0 {
        return None;
    }
    parse_usize(&word)
}

/// The progress event for a line, given the number of frames in the
/// sequence; `None` for a line that reports no frame.
pub fn progress_event(line: &str, total_frames: usize) -> (r: Option<ProgressEvent>)
    ensures
        match r {
            Some(e) => progress_frame_spec(line@) == Some(e.frame as nat) && e.total
                == total_frames && e.completed == if e.frame <= total_frames {
                e.frame
            } else {
                total_frames
            },
            None => progress_frame_spec(line@) is None,
        },
{
    match progress_frame(line) {
        None => None,
        Some(frame) => {
            let completed = if frame <= total_frames {
                frame
            } else {
                total_frames
            };
            Some(ProgressEvent { frame, completed, total: total_frames })
        },
    }
}

} // verus!
