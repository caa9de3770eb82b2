//! Choosing where the encoder is, and reading its version line.
use vstd::prelude::*;
use crate::conversion::string_views;

verus! {

/// The operating systems whose usual install locations are known.
pub enum Platform {
    Windows,
    MacOs,
    Unix,
}

/// Where the encoder is looked for when the search path does not have it,
/// in order.
pub open spec fn fallbacks_of(platform: Platform) -> Seq<Seq<char>> {
    match platform {
        Platform::Windows => seq![
            "C:\\ffmpeg\\bin\\ffmpeg.exe"@,
            "C:\\Program Files\\ffmpeg\\bin\\ffmpeg.exe"@,
            "C:\\Program Files (x86)\\ffmpeg\\bin\\ffmpeg.exe"@,
        ],
        Platform::MacOs => seq![
            "/opt/homebrew/bin/ffmpeg"@,
            "/usr/local/bin/ffmpeg"@,
            "/usr/bin/ffmpeg"@,
            "/opt/local/bin/ffmpeg"@,
        ],
        Platform::Unix => seq!["/usr/bin/ffmpeg"@, "/usr/local/bin/ffmpeg"@, "/snap/bin/ffmpeg"@],
    }
}

/// The usual install locations of the encoder on a platform, in the order
/// they are tried.
pub fn fallback_locations(platform: Platform) -> (r: Vec<String>)
    ensures
        string_views(r@) == fallbacks_of(platform),
{
    let r = match platform {
        Platform::Windows => vec![
            "C:\\ffmpeg\\bin\\ffmpeg.exe".to_owned(),
            "C:\\Program Files\\ffmpeg\\bin\\ffmpeg.exe".to_owned(),
            "C:\\Program Files (x86)\\ffmpeg\\bin\\ffmpeg.exe".to_owned(),
        ],
        Platform::MacOs => vec![
            "/opt/homebrew/bin/ffmpeg".to_owned(),
            "/usr/local/bin/ffmpeg".to_owned(),
            "/usr/bin/ffmpeg".to_owned(),
            "/opt/local/bin/ffmpeg".to_owned(),
        ],
        Platform::Unix => vec![
            "/usr/bin/ffmpeg".to_owned(),
            "/usr/local/bin/ffmpeg".to_owned(),
            "/snap/bin/ffmpeg".to_owned(),
        ],
    };
    assert(string_views(r@) =~= fallbacks_of(platform));
    r
}

/// The index of the first candidate that exists, at or after `i`.
pub open spec fn first_existing(exists: Seq<bool>, i: int) -> Option<int>
    decreases exists.len() - i,
{
    if i < 0 || i >= exists.len() {
        None
    } else if exists[i] {
        Some(i)
    } else {
        first_existing(exists, i + 1)
    }
}

/// The encoder's location: the one the search path gave, else the first
/// fallback that exists.
pub open spec fn located(
    on_path: Option<Seq<char>>,
    candidates: Seq<Seq<char>>,
    exists: Seq<bool>,
) -> Option<Seq<char>> {
    match on_path {
        Some(p) => Some(p),
        None => match first_existing(exists, 0) {
            Some(i) => Some(candidates[i]),
            None => None,
        },
    }
}

pub open spec fn opt_string_view(o: Option<String>) -> Option<Seq<char>> {
    match o {
        Some(s) => Some(s@),
        None => None,
    }
}

/// Chooses the encoder's location from what the search path gave and which
/// of the fallback locations exist (`exists[i]` for `candidates[i]`).
pub fn locate_encoder(on_path: Option<String>, candidates: Vec<String>, exists: Vec<bool>) -> (r:
    Option<String>)
    requires
        candidates@.len() == exists@.len(),
    ensures
        opt_string_view(r) == located(opt_string_view(on_path), string_views(candidates@), exists@),
{
    if let Some(p) = &on_path {
        return Some(p.clone());
    }
    let mut i: usize = 0;
    while i < exists.len()
        invariant
            i <= exists@.len(),
            candidates@.len() == exists@.len(),
            on_path is None,
            first_existing(exists@, 0) == first_existing(exists@, i as int),
        decreases exists@.len() - i,
    {
        if exists[i] {
            assert(string_views(candidates@)[i as int] == candidates@[i as int]@);
            return Some(candidates[i].clone());
        }
        i = i + 1;
    }
    None
}

/// The first line of a text as `str::lines` gives it: up to the first line
/// feed, without a carriage return that ends it; none for empty text.
pub open spec fn first_line_of(s: Seq<char>) -> Option<Seq<char>> {
    if s.len() == 0 {
        None
    } else {
        match first_existing(s.map_values(|c: char| c == '\n'), 0) {
            None => Some(s),
            Some(j) => if j > 0 && s[j - 1] == '\r' {
                Some(s.take(j - 1))
            } else {
                Some(s.take(j))
            },
        }
    }
}

/// The first line of the encoder's version output.
pub fn first_line(s: &str) -> (r: Option<String>)
    ensures
        opt_string_view(r) == first_line_of(s@),
{
    let n = s.unicode_len();
    if n == 0 {
        return None;
    }
    let ghost feeds = s@.map_values(|c: char| c == '\n');
    let mut line = String::new();
    let mut i: usize = 0;
    while i < n
        invariant
            i <= n,
            n == s@.len(),
            feeds == s@.map_values(|c: char| c == '\n'),
            first_existing(feeds, 0) == first_existing(feeds, i as int),
            line@ == s@.take(i as int),
        decreases n - i,
    {
        let c = s.get_char(i);
        if c == '\n' {
            assert(feeds[i as int]);
            if i > 0 && s.get_char(i - 1) == '\r' {
                let mut shorter = String::new();
                let mut j: usize = 0;
                while j < i - 1
                    invariant
                        j <= i - 1,
                        i <= n,
                        n == s@.len(),
                        shorter@ == s@.take(j as int),
                    decreases i - 1 - j,
                {
                    crate::text::push_char(&mut shorter, s.get_char(j));
                    assert(s@.take(j + 1) =~= s@.take(j as int).push(s@[j as int]));
                    j = j + 1;
                }
                return Some(shorter);
            }
            return Some(line);
        }
        crate::text::push_char(&mut line, c);
        assert(s@.take(i + 1) =~= s@.take(i as int).push(s@[i as int]));
        i = i + 1;
    }
    assert(s@.take(n as int) =~= s@);
    Some(line)
}

} // verus!
