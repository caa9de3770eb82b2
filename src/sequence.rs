//! Sequence analysis: decides whether a list of image paths forms one
//! contiguous, uniformly padded numbered sequence, and describes it.
use vstd::prelude::*;
use crate::text::{
    all_digits, ascii_digit, chars_of, digits_only, decimal, is_ascii_digit, join_decimals, parse_usize, parse_usize_spec,
    push_chars, push_decimal, push_joined, push_str,
};

verus! {

/// Result of analysing a list of paths, as handed to the caller.
pub struct SequenceInfo {
    pub valid: bool,
    pub pattern: String,
    pub frame_count: usize,
    pub start_number: usize,
    pub prefix: String,
    pub directory: String,
    pub error: Option<String>,
}

/// A sequence that passed every check.
pub struct Sequence {
    pub pattern: Seq<char>,
    pub frame_count: nat,
    pub start_number: nat,
    pub prefix: Seq<char>,
    pub directory: Seq<char>,
}

/// Why a list of paths is not a sequence.
pub enum Failure {
    NoFiles,
    TooFewFiles,
    NoDirectory,
    InvalidFilename,
    NoNumbering,
    PrefixMismatch(Seq<char>, Seq<char>),
    InconsistentPadding,
    InvalidNumber(Seq<char>),
    /// The missing numbers, how many were found, the lowest and the highest.
    Gaps(Seq<nat>, nat, nat, nat),
}

pub open spec fn opt_view(o: Option<String>) -> Option<Seq<char>> {
    match o {
        Some(s) => Some(s@),
        None => None,
    }
}

pub open spec fn stem_views(stems: Seq<Option<String>>) -> Seq<Option<Seq<char>>> {
    stems.map_values(|o: Option<String>| opt_view(o))
}

pub open spec fn nat_views(ns: Seq<usize>) -> Seq<nat> {
    ns.map_values(|v: usize| v as nat)
}

/// The length of the longest run of decimal digits that ends the text.
pub open spec fn trailing_digits(s: Seq<char>) -> nat
    decreases s.len(),
{
    if s.len() > 0 && is_ascii_digit(s.last()) {
        trailing_digits(s.drop_last()) + 1
    } else {
        0
    }
}

/// The frame number that one file stem carries, given the prefix and the
/// digit count taken from the first file: what follows the prefix must be
/// that many decimal digits, with no sign, and fit in `usize`.
pub open spec fn stem_number(stem: Option<Seq<char>>, prefix: Seq<char>, padding: nat) -> Result<
    nat,
    Failure,
> {
    match stem {
        None => Err(Failure::InvalidFilename),
        Some(s) => if !prefix.is_prefix_of(s) {
            Err(Failure::PrefixMismatch(prefix, s))
        } else if s.len() - prefix.len() != padding {
            Err(Failure::InconsistentPadding)
        } else if !all_digits(s.skip(prefix.len() as int)) {
            Err(Failure::InvalidNumber(s))
        } else {
            match parse_usize_spec(s.skip(prefix.len() as int)) {
                None => Err(Failure::InvalidNumber(s)),
                Some(n) => Ok(n),
            }
        },
    }
}

/// The frame numbers of all stems in order, or the failure of the first
/// stem that has none.
pub open spec fn stem_numbers(stems: Seq<Option<Seq<char>>>, prefix: Seq<char>, padding: nat) -> Result<
    Seq<nat>,
    Failure,
>
    decreases stems.len(),
{
    if stems.len() == 0 {
        Ok(seq![])
    } else {
        match stem_numbers(stems.drop_last(), prefix, padding) {
            Err(f) => Err(f),
            Ok(ns) => match stem_number(stems.last(), prefix, padding) {
                Err(f) => Err(f),
                Ok(n) => Ok(ns.push(n)),
            },
        }
    }
}

pub open spec fn seq_min(ns: Seq<nat>) -> nat
    decreases ns.len(),
{
    if ns.len() <= 1 {
        ns[0]
    } else {
        let m = seq_min(ns.drop_last());
        if ns.last() < m {
            ns.last()
        } else {
            m
        }
    }
}

pub open spec fn seq_max(ns: Seq<nat>) -> nat
    decreases ns.len(),
{
    if ns.len() <= 1 {
        ns[0]
    } else {
        let m = seq_max(ns.drop_last());
        if ns.last() > m {
            ns.last()
        } else {
            m
        }
    }
}

/// The numbers in `start .. k` that `ns` does not hold, ascending.
pub open spec fn missing_below(ns: Seq<nat>, start: nat, k: int) -> Seq<nat>
    decreases k - start,
{
    if k <= start {
        seq![]
    } else {
        let rest = missing_below(ns, start, k - 1);
        if ns.contains((k - 1) as nat) {
            rest
        } else {
            rest.push((k - 1) as nat)
        }
    }
}

/// The numeric placeholder of the encoder's input pattern.
pub open spec fn placeholder(padding: nat) -> Seq<char> {
    if padding > 1 {
        "%0"@ + decimal(padding) + "d"@
    } else {
        "%d"@
    }
}

pub open spec fn pattern_of(prefix: Seq<char>, padding: nat) -> Seq<char> {
    prefix + placeholder(padding) + ".png"@
}

/// The checks on the numbers themselves: no gaps between lowest and highest.
pub open spec fn sequence_of(
    directory: Seq<char>,
    prefix: Seq<char>,
    padding: nat,
    ns: Seq<nat>,
) -> Result<Sequence, Failure> {
    let start = seq_min(ns);
    let end = seq_max(ns);
    if ns.len() != end - start + 1 {
        Err(Failure::Gaps(missing_below(ns, start, end + 1 as int), ns.len(), start, end))
    } else {
        Ok(
            Sequence {
                pattern: pattern_of(prefix, padding),
                frame_count: ns.len(),
                start_number: start,
                prefix,
                directory,
            },
        )
    }
}

/// The analysis of the stems of the image files, given the directory of the
/// first of them.
pub open spec fn analysis(directory: Option<Seq<char>>, stems: Seq<Option<Seq<char>>>) -> Result<
    Sequence,
    Failure,
> {
    if stems.len() == 0 {
        Err(Failure::NoFiles)
    } else if stems.len() < 2 {
        Err(Failure::TooFewFiles)
    } else if directory is None {
        Err(Failure::NoDirectory)
    } else if stems[0] is None {
        Err(Failure::InvalidFilename)
    } else {
        let first = stems[0]->0;
        let padding = trailing_digits(first);
        if padding == 0 {
            Err(Failure::NoNumbering)
        } else {
            let prefix = first.take(first.len() - padding);
            match stem_numbers(stems, prefix, padding) {
                Err(f) => Err(f),
                Ok(ns) => sequence_of(directory->0, prefix, padding, ns),
            }
        }
    }
}

/// The message shown to the user for each failure.
pub open spec fn failure_text(f: Failure) -> Seq<char> {
    match f {
        Failure::NoFiles => "No PNG files found"@,
        Failure::TooFewFiles => "Need at least 2 PNG files for a sequence"@,
        Failure::NoDirectory => "Could not determine directory"@,
        Failure::InvalidFilename => "Invalid filename"@,
        Failure::NoNumbering => "Could not detect numbering pattern. Files must end with numbers (e.g., frame_001.png)"@,
        Failure::PrefixMismatch(expected, found) => "Files have different prefixes. Expected '"@
            + expected + "' but found '"@ + found + "'"@,
        Failure::InconsistentPadding => "Inconsistent padding detected. All frame numbers must have the same padding (e.g., all 001, 002, 003 or all 1, 2, 3)"@,
        Failure::InvalidNumber(stem) => "Invalid frame number in '"@ + stem + "'"@,
        Failure::Gaps(missing, found, start, end) => "Sequence has gaps. Missing frames: "@
            + join_decimals(missing) + ". Found "@ + decimal(found) + " frames but expected "@
            + decimal((end - start + 1) as nat) + " ("@ + decimal(start) + "\u{2013}"@ + decimal(end)
            + ")"@,
    }
}

/// `info` reports the outcome `a`.
pub open spec fn describes(info: SequenceInfo, a: Result<Sequence, Failure>) -> bool {
    match a {
        Ok(s) => {
            &&& info.valid
            &&& info.pattern@ == s.pattern
            &&& info.frame_count == s.frame_count
            &&& info.start_number == s.start_number
            &&& info.prefix@ == s.prefix
            &&& info.directory@ == s.directory
            &&& info.error is None
        },
        Err(f) => {
            &&& !info.valid
            &&& info.pattern@ == Seq::<char>::empty()
            &&& info.frame_count == 0
            &&& info.start_number == 0
            &&& info.prefix@ == Seq::<char>::empty()
            &&& info.directory@ == Seq::<char>::empty()
            &&& info.error matches Some(e) && e@ == failure_text(f)
        },
    }
}

/// The length of the run of decimal digits that ends `s`.
fn trailing_digit_count(s: &Vec<char>) -> (r: usize)
    ensures
        r == trailing_digits(s@),
        r <= s@.len(),
{
    let n = s.len();
    let mut k: usize = n;
    assert(s@.take(n as int) =~= s@);
    while k > 0 && ascii_digit(s[k - 1])
        invariant
            k <= n,
            n == s@.len(),
            trailing_digits(s@) == trailing_digits(s@.take(k as int)) + (n - k),
        decreases k,
    {
        assert(s@.take(k as int).drop_last() =~= s@.take(k - 1));
        k = k - 1;
    }
    assert(s@.take(n as int) =~= s@);
    n - k
}

/// The first `k` characters.
fn take_chars(s: &Vec<char>, k: usize) -> (r: Vec<char>)
    requires
        k <= s@.len(),
    ensures
        r@ == s@.take(k as int),
{
    let mut r: Vec<char> = Vec::new();
    let mut i: usize = 0;
    while i < k
        invariant
            i <= k <= s@.len(),
            r@ == s@.take(i as int),
        decreases k - i,
    {
        r.push(s[i]);
        assert(s@.take(i + 1) =~= s@.take(i as int).push(s@[i as int]));
        i = i + 1;
    }
    r
}

/// All characters from position `k` on.
fn skip_chars(s: &Vec<char>, k: usize) -> (r: Vec<char>)
    requires
        k <= s@.len(),
    ensures
        r@ == s@.skip(k as int),
{
    let mut r: Vec<char> = Vec::new();
    let mut i: usize = k;
    while i < s.len()
        invariant
            k <= i <= s@.len(),
            r@ == s@.subrange(k as int, i as int),
        decreases s@.len() - i,
    {
        r.push(s[i]);
        assert(s@.subrange(k as int, i + 1) =~= s@.subrange(k as int, i as int).push(s@[i as int]));
        i = i + 1;
    }
    assert(s@.subrange(k as int, s@.len() as int) =~= s@.skip(k as int));
    r
}

fn starts_with(s: &Vec<char>, p: &Vec<char>) -> (r: bool)
    ensures
        r == p@.is_prefix_of(s@),
{
    if p.len() > s.len() {
        return false;
    }
    let mut i: usize = 0;
    while i < p.len()
        invariant
            i <= p@.len() <= s@.len(),
            p@.take(i as int) =~= s@.take(i as int),
        decreases p@.len() - i,
    {
        if p[i] != s[i] {
            return false;
        }
        assert(p@.take(i + 1) =~= p@.take(i as int).push(p@[i as int]));
        assert(s@.take(i + 1) =~= s@.take(i as int).push(s@[i as int]));
        i = i + 1;
    }
    assert(p@.take(p@.len() as int) =~= p@);
    assert(s@.take(p@.len() as int) =~= s@.subrange(0, p@.len() as int));
    true
}

/// A string holding exactly the given text.
fn text(t: &str) -> (r: String)
    ensures
        r@ == t@,
{
    t.to_owned()
}

fn prefix_mismatch_text(expected: &Vec<char>, found: &Vec<char>) -> (r: String)
    ensures
        r@ == failure_text(Failure::PrefixMismatch(expected@, found@)),
{
    let mut r = text("Files have different prefixes. Expected '");
    push_chars(&mut r, expected);
    push_str(&mut r, "' but found '");
    push_chars(&mut r, found);
    push_str(&mut r, "'");
    r
}

fn invalid_number_text(stem: &Vec<char>) -> (r: String)
    ensures
        r@ == failure_text(Failure::InvalidNumber(stem@)),
{
    let mut r = text("Invalid frame number in '");
    push_chars(&mut r, stem);
    push_str(&mut r, "'");
    r
}

fn gaps_text(missing: &Vec<usize>, found: usize, start: usize, end: usize) -> (r: String)
    requires
        start <= end,
    ensures
        r@ == failure_text(
            Failure::Gaps(nat_views(missing@), found as nat, start as nat, end as nat),
        ),
{
    let mut r = text("Sequence has gaps. Missing frames: ");
    push_joined(&mut r, missing);
    push_str(&mut r, ". Found ");
    push_decimal(&mut r, found as u128);
    push_str(&mut r, " frames but expected ");
    push_decimal(&mut r, (end - start) as u128 + 1);
    push_str(&mut r, " (");
    push_decimal(&mut r, start as u128);
    push_str(&mut r, "\u{2013}");
    push_decimal(&mut r, end as u128);
    push_str(&mut r, ")");
    r
}

/// The frame number of one stem, or the message of its failure.
fn stem_number_of(stem: &Option<String>, prefix: &Vec<char>, padding: usize) -> (r: Result<
    usize,
    String,
>)
    ensures
        match (r, stem_number(opt_view(*stem), prefix@, padding as nat)) {
            (Ok(v), Ok(n)) => v as nat == n,
            (Err(m), Err(f)) => m@ == failure_text(f),
            _ => false,
        },
{
    match stem {
        None => Err(text("Invalid filename")),
        Some(st) => {
            let s = chars_of(st.as_str());
            if !starts_with(&s, prefix) {
                return Err(prefix_mismatch_text(prefix, &s));
            }
            if s.len() - prefix.len() != padding {
                return Err(
                    text(
                        "Inconsistent padding detected. All frame numbers must have the same padding (e.g., all 001, 002, 003 or all 1, 2, 3)",
                    ),
                );
            }
            let digits = skip_chars(&s, prefix.len());
            if !digits_only(&digits) {
                return Err(invalid_number_text(&s));
            }
            match parse_usize(&digits) {
                None => Err(invalid_number_text(&s)),
                Some(v) => Ok(v),
            }
        },
    }
}

fn contains_number(v: &Vec<usize>, x: usize) -> (r: bool)
    ensures
        r == nat_views(v@).contains(x as nat),
{
    let mut i: usize = 0;
    while i < v.len()
        invariant
            i <= v@.len(),
            forall|j: int| 0 <= j < i ==> v@[j] != x,
        decreases v@.len() - i,
    {
        if v[i] == x {
            assert(nat_views(v@)[i as int] == x as nat);
            return true;
        }
        i = i + 1;
    }
    assert(!nat_views(v@).contains(x as nat)) by {
        if nat_views(v@).contains(x as nat) {
            let j = choose|j: int| 0 <= j < nat_views(v@).len() && nat_views(v@)[j] == x as nat;
            assert(v@[j] == x);
        }
    }
    false
}

proof fn lemma_min_le_max(ns: Seq<nat>)
    requires
        ns.len() >= 1,
    ensures
        seq_min(ns) <= seq_max(ns),
    decreases ns.len(),
{
    if ns.len() > 1 {
        lemma_min_le_max(ns.drop_last());
    }
}

/// The lowest and the highest of at least one number.
fn bounds(v: &Vec<usize>) -> (r: (usize, usize))
    requires
        v@.len() >= 1,
    ensures
        r.0 as nat == seq_min(nat_views(v@)),
        r.1 as nat == seq_max(nat_views(v@)),
{
    let mut lo = v[0];
    let mut hi = v[0];
    let mut i: usize = 1;
    assert(nat_views(v@).take(1) =~= seq![v@[0] as nat]);
    while i < v.len()
        invariant
            1 <= i <= v@.len(),
            lo as nat == seq_min(nat_views(v@).take(i as int)),
            hi as nat == seq_max(nat_views(v@).take(i as int)),
        decreases v@.len() - i,
    {
        assert(nat_views(v@).take(i + 1).drop_last() =~= nat_views(v@).take(i as int));
        if v[i] < lo {
            lo = v[i];
        }
        if v[i] > hi {
            hi = v[i];
        }
        i = i + 1;
    }
    assert(nat_views(v@).take(v@.len() as int) =~= nat_views(v@));
    (lo, hi)
}

/// The numbers from `start` to `end` that `v` does not hold, ascending.
fn missing_numbers(v: &Vec<usize>, start: usize, end: usize) -> (r: Vec<usize>)
    requires
        start <= end,
    ensures
        nat_views(r@) == missing_below(nat_views(v@), start as nat, end + 1),
{
    let mut missing: Vec<usize> = Vec::new();
    let mut i: usize = start;
    loop
        invariant
            start <= i <= end,
            nat_views(missing@) == missing_below(nat_views(v@), start as nat, i as int),
        decreases end - i,
    {
        let ghost before = missing@;
        if !contains_number(v, i) {
            missing.push(i);
            assert(nat_views(missing@) =~= nat_views(before).push(i as nat));
        }
        assert(nat_views(missing@) == missing_below(nat_views(v@), start as nat, i + 1));
        if i == end {
            return missing;
        }
        i = i + 1;
    }
}

/// The pattern that the encoder reads the frames by.
fn pattern_text(prefix: &Vec<char>, padding: usize) -> (r: String)
    ensures
        r@ == pattern_of(prefix@, padding as nat),
{
    let mut r = String::new();
    push_chars(&mut r, prefix);
    if padding > 1 {
        push_str(&mut r, "%0");
        push_decimal(&mut r, padding as u128);
        push_str(&mut r, "d");
    } else {
        push_str(&mut r, "%d");
    }
    push_str(&mut r, ".png");
    assert(r@ =~= pattern_of(prefix@, padding as nat));
    r
}

fn failed(message: String) -> (r: SequenceInfo)
    ensures
        !r.valid,
        r.pattern@ == Seq::<char>::empty(),
        r.frame_count == 0,
        r.start_number == 0,
        r.prefix@ == Seq::<char>::empty(),
        r.directory@ == Seq::<char>::empty(),
        r.error == Some(message),
{
    SequenceInfo {
        valid: false,
        pattern: String::new(),
        frame_count: 0,
        start_number: 0,
        prefix: String::new(),
        directory: String::new(),
        error: Some(message),
    }
}

/// Analyses the stems of the image files, given the directory of the first
/// of them.
pub fn analyze_stems(directory: Option<String>, stems: Vec<Option<String>>) -> (r: SequenceInfo)
    ensures
        describes(r, analysis(opt_view(directory), stem_views(stems@))),
{
    let ghost sv = stem_views(stems@);
    let n = stems.len();
    if n == 0 {
        return failed(text("No PNG files found"));
    }
    if n < 2 {
        return failed(text("Need at least 2 PNG files for a sequence"));
    }
    let dir = match &directory {
        None => {
            return failed(text("Could not determine directory"));
        },
        Some(d) => d.clone(),
    };
    let first = match &stems[0] {
        None => {
            return failed(text("Invalid filename"));
        },
        Some(s) => chars_of(s.as_str()),
    };
    assert(sv[0] == Some(first@));
    let padding = trailing_digit_count(&first);
    if padding == 0 {
        return failed(
            text(
                "Could not detect numbering pattern. Files must end with numbers (e.g., frame_001.png)",
            ),
        );
    }
    let prefix = take_chars(&first, first.len() - padding);
    let mut numbers: Vec<usize> = Vec::new();
    let mut i: usize = 0;
    assert(sv.take(0) =~= seq![]);
    assert(nat_views(numbers@) =~= seq![]);
    while i < n
        invariant
            i <= n,
            n == stems@.len(),
            sv == stem_views(stems@),
            n >= 2,
            opt_view(directory) == Some(dir@),
            sv[0] == Some(first@),
            padding == trailing_digits(first@),
            0 < padding <= first@.len(),
            prefix@ == first@.take(first@.len() - padding),
            stem_numbers(sv.take(i as int), prefix@, padding as nat) == Ok::<Seq<nat>, Failure>(
                nat_views(numbers@),
            ),
            numbers@.len() == i,
        decreases n - i,
    {
        assert(sv.take(i + 1).drop_last() =~= sv.take(i as int));
        assert(sv.take(i + 1).last() == opt_view(stems@[i as int]));
        match stem_number_of(&stems[i], &prefix, padding) {
            Err(m) => {
                proof {
                    lemma_failure_persists(sv, prefix@, padding as nat, i + 1);
                }
                return failed(m);
            },
            Ok(v) => {
                let ghost before = numbers@;
                numbers.push(v);
                assert(nat_views(numbers@) =~= nat_views(before).push(v as nat));
            },
        }
        i = i + 1;
    }
    assert(sv.take(n as int) =~= sv);
    let ghost ns = nat_views(numbers@);
    let (start, end) = bounds(&numbers);
    proof {
        lemma_min_le_max(ns);
    }
    if n - 1 != end - start {
        let missing = missing_numbers(&numbers, start, end);
        return failed(gaps_text(&missing, n, start, end));
    }
    SequenceInfo {
        valid: true,
        pattern: pattern_text(&prefix, padding),
        frame_count: n,
        start_number: start,
        prefix: string_of(&prefix),
        directory: dir,
        error: None,
    }
}

/// A string of the given characters.
fn string_of(cs: &Vec<char>) -> (r: String)
    ensures
        r@ == cs@,
{
    let mut r = String::new();
    push_chars(&mut r, cs);
    assert(r@ =~= cs@);
    r
}

/// Once a stem fails, every longer list of stems fails the same way.
proof fn lemma_failure_persists(stems: Seq<Option<Seq<char>>>, prefix: Seq<char>, padding: nat, k: int)
    requires
        0 <= k <= stems.len(),
        stem_numbers(stems.take(k), prefix, padding) is Err,
    ensures
        stem_numbers(stems, prefix, padding) == stem_numbers(stems.take(k), prefix, padding),
    decreases stems.len() - k,
{
    if k < stems.len() {
        assert(stems.drop_last().take(k) =~= stems.take(k));
        lemma_failure_persists(stems.drop_last(), prefix, padding, k);
    } else {
        assert(stems.take(k) =~= stems);
    }
}

/// The extension of a path as `Path::extension` gives it on the target the
/// library is built for.
pub uninterp spec fn path_extension(p: Seq<char>) -> Option<Seq<char>>;

/// The parent directory of a path as `Path::parent` gives it on the target
/// the library is built for.
pub uninterp spec fn path_parent(p: Seq<char>) -> Option<Seq<char>>;

/// The file name without its extension, as `Path::file_stem` gives it on
/// the target the library is built for.
pub uninterp spec fn path_stem(p: Seq<char>) -> Option<Seq<char>>;

/// Relies on `Path::extension`: the extension of the path's file name.
#[verifier::external_body]
fn extension_of(p: &String) -> (r: Option<String>)
    ensures
        opt_view(r) == path_extension(p@),
{
    std::path::Path::new(p).extension().and_then(|e| e.to_str()).map(|e| e.to_string())
}

/// Relies on `Path::parent`: the path without its last component.
#[verifier::external_body]
fn parent_of(p: &String) -> (r: Option<String>)
    ensures
        opt_view(r) == path_parent(p@),
{
    std::path::Path::new(p).parent().and_then(|d| d.to_str()).map(|d| d.to_string())
}

/// Relies on `Path::file_stem`: the file name without its extension.
#[verifier::external_body]
fn stem_of(p: &String) -> (r: Option<String>)
    ensures
        opt_view(r) == path_stem(p@),
{
    std::path::Path::new(p).file_stem().and_then(|s| s.to_str()).map(|s| s.to_string())
}

pub open spec fn is_image_path(p: Seq<char>) -> bool {
    path_extension(p) == Some("png"@)
}

/// The paths whose extension is exactly `png`, in their order.
pub open spec fn image_paths(paths: Seq<Seq<char>>) -> Seq<Seq<char>>
    decreases paths.len(),
{
    if paths.len() == 0 {
        seq![]
    } else {
        let rest = image_paths(paths.drop_last());
        if is_image_path(paths.last()) {
            rest.push(paths.last())
        } else {
            rest
        }
    }
}

pub open spec fn path_views(paths: Seq<String>) -> Seq<Seq<char>> {
    paths.map_values(|p: String| p@)
}

pub open spec fn first_parent(files: Seq<Seq<char>>) -> Option<Seq<char>> {
    if files.len() > 0 {
        path_parent(files[0])
    } else {
        None
    }
}

pub open spec fn stems_of(files: Seq<Seq<char>>) -> Seq<Option<Seq<char>>> {
    files.map_values(|p: Seq<char>| path_stem(p))
}

/// The analysis of a list of paths: the image files among them, the
/// directory of the first, and their stems.
pub open spec fn path_analysis(paths: Seq<Seq<char>>) -> Result<Sequence, Failure> {
    let files = image_paths(paths);
    analysis(first_parent(files), stems_of(files))
}

/// Analyses a list of paths: keeps those with the `png` extension and
/// decides whether they form one numbered sequence.
pub fn analyze_sequence(paths: Vec<String>) -> (r: SequenceInfo)
    ensures
        describes(r, path_analysis(path_views(paths@))),
{
    let ghost pv = path_views(paths@);
    let png = text("png");
    let mut directory: Option<String> = None;
    let mut stems: Vec<Option<String>> = Vec::new();
    let mut i: usize = 0;
    assert(pv.take(0) =~= seq![]);
    while i < paths.len()
        invariant
            i <= paths@.len(),
            pv == path_views(paths@),
            png@ == "png"@,
            stem_views(stems@) == stems_of(image_paths(pv.take(i as int))),
            opt_view(directory) == first_parent(image_paths(pv.take(i as int))),
        decreases paths@.len() - i,
    {
        let p = &paths[i];
        let ghost before = image_paths(pv.take(i as int));
        assert(pv.take(i + 1).drop_last() =~= pv.take(i as int));
        assert(pv.take(i + 1).last() == p@);
        let is_image = match extension_of(p) {
            Some(e) => e == png,
            None => false,
        };
        if is_image {
            if stems.len() == 0 {
                directory = parent_of(p);
            }
            let ghost old_stems = stems@;
            stems.push(stem_of(p));
            assert(stem_views(stems@) =~= stem_views(old_stems).push(path_stem(p@)));
            assert(stems_of(before.push(p@)) =~= stems_of(before).push(path_stem(p@)));
            proof {
                if before.len() > 0 {
                    assert(before.push(p@)[0] == before[0]);
                }
            }
        }
        i = i + 1;
    }
    assert(pv.take(paths@.len() as int) =~= pv);
    analyze_stems(directory, stems)
}

/// Fewer than two image files never form a sequence: with none the analysis
/// fails for want of files, with one for want of a second frame.
pub proof fn lemma_too_few_frames(paths: Seq<Seq<char>>)
    requires
        image_paths(paths).len() < 2,
    ensures
        path_analysis(paths) == (if image_paths(paths).len() == 0 {
            Err::<Sequence, Failure>(Failure::NoFiles)
        } else {
            Err::<Sequence, Failure>(Failure::TooFewFiles)
        }),
{
}

/// When the stems all yield numbers, there is one number per stem, each the
/// number of its stem.
pub proof fn lemma_stem_numbers_each(stems: Seq<Option<Seq<char>>>, prefix: Seq<char>, padding: nat)
    requires
        stem_numbers(stems, prefix, padding) is Ok,
    ensures
        stem_numbers(stems, prefix, padding)->Ok_0.len() == stems.len(),
        forall|i: int|
            0 <= i < stems.len() ==> stem_number(#[trigger] stems[i], prefix, padding) == Ok::<
                nat,
                Failure,
            >(stem_numbers(stems, prefix, padding)->Ok_0[i]),
    decreases stems.len(),
{
    if stems.len() > 0 {
        lemma_stem_numbers_each(stems.drop_last(), prefix, padding);
        assert forall|i: int| 0 <= i < stems.len() implies stem_number(
            #[trigger] stems[i],
            prefix,
            padding,
        ) == Ok::<nat, Failure>(stem_numbers(stems, prefix, padding)->Ok_0[i]) by {
            if i < stems.len() - 1 {
                assert(stems.drop_last()[i] == stems[i]);
            }
        }
    }
}

/// In a valid sequence every stem is the common prefix followed by exactly
/// as many characters as the first stem's trailing digits, and the pattern
/// holds a placeholder of that width: `%0Wd` when it is two or more, `%d`
/// when it is one.
pub proof fn lemma_pattern_width(directory: Option<Seq<char>>, stems: Seq<Option<Seq<char>>>)
    requires
        analysis(directory, stems) is Ok,
    ensures
        ({
            let s = analysis(directory, stems)->Ok_0;
            let w = trailing_digits(stems[0]->0);
            &&& w >= 1
            &&& forall|i: int|
                0 <= i < stems.len() ==> (#[trigger] stems[i]) is Some && s.prefix.is_prefix_of(
                    stems[i]->0,
                ) && stems[i]->0.len() == s.prefix.len() + w
            &&& w >= 2 ==> s.pattern == s.prefix + "%0"@ + decimal(w) + "d"@ + ".png"@
            &&& w == 1 ==> s.pattern == s.prefix + "%d"@ + ".png"@
        }),
{
    let s = analysis(directory, stems)->Ok_0;
    let first = stems[0]->0;
    let w = trailing_digits(first);
    let prefix = first.take(first.len() - w);
    lemma_stem_numbers_each(stems, prefix, w);
    assert forall|i: int| 0 <= i < stems.len() implies (#[trigger] stems[i]) is Some
        && s.prefix.is_prefix_of(stems[i]->0) && stems[i]->0.len() == s.prefix.len() + w by {
        assert(stem_number(stems[i], prefix, w) is Ok);
    }
    if w >= 2 {
        assert(s.pattern =~= s.prefix + "%0"@ + decimal(w) + "d"@ + ".png"@);
    }
}

/// The analysis depends on the paths alone: the same list always gives the
/// same outcome.
pub proof fn lemma_analysis_deterministic(a: Seq<Seq<char>>, b: Seq<Seq<char>>)
    requires
        a == b,
    ensures
        path_analysis(a) == path_analysis(b),
{
}

proof fn lemma_min_max_bound(ns: Seq<nat>, i: int)
    requires
        0 <= i < ns.len(),
    ensures
        seq_min(ns) <= ns[i] <= seq_max(ns),
    decreases ns.len(),
{
    if ns.len() > 1 && i < ns.len() - 1 {
        lemma_min_max_bound(ns.drop_last(), i);
    }
}

/// A valid sequence has one frame per image file, and every file's number
/// lies in the range from the start number through the start number plus
/// the frame count less one.
pub proof fn lemma_valid_numbers_in_range(directory: Option<Seq<char>>, stems: Seq<Option<Seq<char>>>)
    requires
        analysis(directory, stems) is Ok,
    ensures
        ({
            let s = analysis(directory, stems)->Ok_0;
            let first = stems[0]->0;
            let w = trailing_digits(first);
            let prefix = first.take(first.len() - w);
            &&& s.frame_count == stems.len()
            &&& forall|i: int|
                0 <= i < stems.len() ==> #[trigger] stem_number(stems[i], prefix, w) is Ok
                    && s.start_number <= stem_number(stems[i], prefix, w)->Ok_0
                    && stem_number(stems[i], prefix, w)->Ok_0 < s.start_number + s.frame_count
        }),
{
    let first = stems[0]->0;
    let w = trailing_digits(first);
    let prefix = first.take(first.len() - w);
    let ns = stem_numbers(stems, prefix, w)->Ok_0;
    lemma_stem_numbers_each(stems, prefix, w);
    assert forall|i: int| 0 <= i < stems.len() implies #[trigger] stem_number(stems[i], prefix, w)
        is Ok && analysis(directory, stems)->Ok_0.start_number <= stem_number(
        stems[i],
        prefix,
        w,
    )->Ok_0 && stem_number(stems[i], prefix, w)->Ok_0 < analysis(directory, stems)->Ok_0.start_number
        + analysis(directory, stems)->Ok_0.frame_count by {
        lemma_min_max_bound(ns, i);
    }
}

/// The missing frames of a gap report are exactly the numbers from the
/// lowest through the highest that no file carries.
pub proof fn lemma_missing_exact(ns: Seq<nat>, start: nat, end: nat, k: nat)
    requires
        start <= k <= end,
    ensures
        missing_below(ns, start, end + 1 as int).contains(k) <==> !ns.contains(k),
{
    lemma_missing_below_contains(ns, start, end + 1 as int, k);
}

proof fn lemma_missing_below_contains(ns: Seq<nat>, start: nat, j: int, k: nat)
    requires
        start <= k < j,
    ensures
        missing_below(ns, start, j).contains(k) <==> !ns.contains(k),
    decreases j - start,
{
    let rest = missing_below(ns, start, j - 1);
    lemma_missing_below_range(ns, start, j - 1);
    if k < j - 1 {
        lemma_missing_below_contains(ns, start, j - 1, k);
        if !ns.contains((j - 1) as nat) {
            assert(rest.push((j - 1) as nat).contains(k) <==> rest.contains(k)) by {
                if rest.push((j - 1) as nat).contains(k) {
                    let pushed = rest.push((j - 1) as nat);
                    let i = choose|i: int| 0 <= i < pushed.len() && #[trigger] pushed[i] == k;
                    assert(i < rest.len());
                    assert(rest[i] == k);
                }
                if rest.contains(k) {
                    let i = choose|i: int| 0 <= i < rest.len() && rest[i] == k;
                    assert(rest.push((j - 1) as nat)[i] == k);
                }
            }
        }
    } else {
        assert(!rest.contains(k));
        if !ns.contains(k) {
            assert(rest.push(k)[rest.len() as int] == k);
        }
    }
}

/// Every number that `missing_below` lists is below its bound.
proof fn lemma_missing_below_range(ns: Seq<nat>, start: nat, j: int)
    ensures
        forall|i: int| 0 <= i < missing_below(ns, start, j).len() ==> #[trigger] missing_below(ns, start, j)[i] < j,
    decreases j - start,
{
    if j > start {
        lemma_missing_below_range(ns, start, j - 1);
        let rest = missing_below(ns, start, j - 1);
        assert forall|i: int| 0 <= i < missing_below(ns, start, j).len() implies #[trigger] missing_below(ns, start, j)[i] < j by {
            if i < rest.len() {
                if !ns.contains((j - 1) as nat) {
                    assert(rest.push((j - 1) as nat)[i] == rest[i]);
                }
            }
        }
    }
}

} // verus!
