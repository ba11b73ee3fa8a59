//! Naming-convention parsing: pure, total functions that extract structured
//! metadata from the folder and file names of a collection organised by
//! convention (`<title> (<year>)` album directories, `<number> - <title>`
//! track files), plus the small name predicates the indexer needs.

use vstd::prelude::*;

verus! {

// ---------- character classes ----------

/// A decimal digit.
pub open spec fn is_digit(c: char) -> bool {
    '0' as u32 <= c as u32 && c as u32 <= '9' as u32
}

/// ASCII whitespace, the separator padding the conventions allow.
pub open spec fn is_space(c: char) -> bool {
    c == ' ' || c == '\t' || c == '\n' || c == '\r' || c == '\u{b}' || c == '\u{c}'
}

pub open spec fn digit_val(c: char) -> int {
    (c as u32) - ('0' as u32)
}

/// Value of a sequence of decimal digits, most significant first.
pub open spec fn digits_val(s: Seq<char>) -> int
    decreases s.len(),
{
    if s.len() == 0 {
        0
    } else {
        digits_val(s.drop_last()) * 10 + digit_val(s.last())
    }
}

/// A name following the hidden-file convention: it starts with a dot.
pub open spec fn hidden_name(s: Seq<char>) -> bool {
    s.len() > 0 && s[0] == '.'
}

/// Whether `name` follows the hidden-file convention (starts with `.`).
pub fn is_hidden(name: &str) -> (r: bool)
    ensures
        r == hidden_name(name@),
{
    if name.unicode_len() == 0 {
        false
    } else {
        name.get_char(0) == '.'
    }
}

// ---------- album directory names ----------

/// An album directory name matches the convention when it ends with a
/// ` (YYYY)` suffix: a space, an opening parenthesis, four decimal digits and
/// a closing parenthesis.
pub open spec fn album_name_matches(s: Seq<char>) -> bool {
    &&& s.len() >= 7
    &&& s[s.len() - 7] == ' '
    &&& s[s.len() - 6] == '('
    &&& is_digit(s[s.len() - 5])
    &&& is_digit(s[s.len() - 4])
    &&& is_digit(s[s.len() - 3])
    &&& is_digit(s[s.len() - 2])
    &&& s[s.len() - 1] == ')'
}

/// The title of a matching album directory name: everything before the
/// trailing ` (YYYY)` suffix.
pub open spec fn album_title_of(s: Seq<char>) -> Seq<char> {
    s.subrange(0, s.len() - 7)
}

/// The release year of a matching album directory name: the value of the four
/// digits inside the trailing parentheses.
pub open spec fn album_year_of(s: Seq<char>) -> int {
    digits_val(s.subrange(s.len() - 5, s.len() - 1))
}

/// Mathematical image of a parsed album directory name.
pub ghost struct AlbumNameV {
    pub title: Seq<char>,
    pub year: int,
}

/// Structured fields parsed from an album directory name.
pub struct AlbumName {
    pub title: String,
    pub year: i32,
}

impl View for AlbumName {
    type V = AlbumNameV;

    open spec fn view(&self) -> AlbumNameV {
        AlbumNameV { title: self.title@, year: self.year as int }
    }
}

/// Parse an album directory name of the shape `<title> (<4-digit-year>)`.
///
/// Returns the title (everything before the trailing ` (YYYY)` suffix) and
/// the year; names of any other shape yield `None`.
pub fn parse_album(name: &str) -> (r: Option<AlbumName>)
    ensures
        r is Some <==> album_name_matches(name@),
        r matches Some(a) ==> a@.title == album_title_of(name@) && a@.year == album_year_of(
            name@,
        ),
{
    let n = name.unicode_len();
    if n < 7 {
        return None;
    }
    if name.get_char(n - 7) != ' ' || name.get_char(n - 6) != '(' || name.get_char(n - 1) != ')' {
        return None;
    }
    let d1 = name.get_char(n - 5);
    let d2 = name.get_char(n - 4);
    let d3 = name.get_char(n - 3);
    let d4 = name.get_char(n - 2);
    if !digit_exec(d1) || !digit_exec(d2) || !digit_exec(d3) || !digit_exec(d4) {
        return None;
    }
    let year: i32 = 1000 * (d1 as u32 as i32 - 48) + 100 * (d2 as u32 as i32 - 48) + 10 * (
    d3 as u32 as i32 - 48) + (d4 as u32 as i32 - 48);
    proof {
        let ghost s = name@;
        let ghost ys = s.subrange(s.len() - 5, s.len() - 1);
        let ghost y3 = ys.drop_last();
        let ghost y2 = y3.drop_last();
        let ghost y1 = y2.drop_last();
        let ghost y0 = y1.drop_last();
        assert(ys.len() == 4);
        assert(ys.last() == d4 && y3.last() == d3 && y2.last() == d2 && y1.last() == d1);
        assert(y0 =~= Seq::<char>::empty());
        assert(digits_val(y0) == 0);
        assert(digits_val(y1) == digits_val(y0) * 10 + digit_val(d1));
        assert(digits_val(y2) == digits_val(y1) * 10 + digit_val(d2));
        assert(digits_val(y3) == digits_val(y2) * 10 + digit_val(d3));
        assert(digits_val(ys) == digits_val(y3) * 10 + digit_val(d4));
        assert(digits_val(ys) == digit_val(d1) * 1000 + digit_val(d2) * 100 + digit_val(d3) * 10
            + digit_val(d4));
    }
    let title = name.substring_char(0, n - 7).to_owned();
    Some(AlbumName { title, year })
}

/// Executable decimal-digit test.
pub fn digit_exec(c: char) -> (r: bool)
    ensures
        r == is_digit(c),
{
    let u = c as u32;
    48 <= u && u <= 57
}

/// Executable ASCII-whitespace test.
pub fn space_exec(c: char) -> (r: bool)
    ensures
        r == is_space(c),
{
    c == ' ' || c == '\t' || c == '\n' || c == '\r' || c == '\u{b}' || c == '\u{c}'
}

/// The character sequences of a sequence of strings.
pub open spec fn views_of(s: Seq<String>) -> Seq<Seq<char>> {
    s.map_values(|x: String| x@)
}

/// Executable string equality over the characters of the two views.
pub fn str_eq(a: &str, b: &str) -> (r: bool)
    ensures
        r == (a@ == b@),
{
    let na = a.unicode_len();
    let nb = b.unicode_len();
    if na != nb {
        return false;
    }
    let mut i: usize = 0;
    while i < na
        invariant
            0 <= i <= na,
            na == a@.len() && na == b@.len(),
            forall|j: int| 0 <= j < i ==> a@[j] == b@[j],
        decreases na - i,
    {
        if a.get_char(i) != b.get_char(i) {
            return false;
        }
        i = i + 1;
    }
    proof {
        assert(a@ =~= b@);
    }
    true
}

// ---------- file-name stems and extensions ----------

/// Position of the last `.` in the name, or `-1` if there is none.
pub open spec fn last_dot_pos(s: Seq<char>) -> int
    decreases s.len(),
{
    if s.len() == 0 {
        -1
    } else if s.last() == '.' {
        s.len() - 1
    } else {
        last_dot_pos(s.drop_last())
    }
}

proof fn lemma_last_dot_pos_is(s: Seq<char>, k: int)
    requires
        -1 <= k < s.len(),
        k >= 0 ==> s[k] == '.',
        forall|j: int| k < j < s.len() ==> s[j] != '.',
    ensures
        last_dot_pos(s) == k,
    decreases s.len(),
{
    if s.len() > 0 && s.last() != '.' {
        lemma_last_dot_pos_is(s.drop_last(), k);
    }
}

/// The stem of a file name: everything before the last `.`, except that a
/// name whose only `.` is its leading character (the hidden-file convention)
/// is its own stem, as is a name without any `.`.
pub open spec fn stem_of(s: Seq<char>) -> Seq<char> {
    if last_dot_pos(s) <= 0 {
        s
    } else {
        s.subrange(0, last_dot_pos(s))
    }
}

/// The extension of a file name: everything after the last `.`, or empty when
/// the name has no `.` other than possibly a leading one.
pub open spec fn extension_of(s: Seq<char>) -> Seq<char> {
    if last_dot_pos(s) <= 0 {
        Seq::<char>::empty()
    } else {
        s.subrange(last_dot_pos(s) + 1, s.len() as int)
    }
}

/// Find the last `.` of the name, returning its index plus whether one exists.
fn find_last_dot(name: &str) -> (r: Option<usize>)
    ensures
        r matches Some(k) ==> last_dot_pos(name@) == k && k < name@.len(),
        r is None ==> last_dot_pos(name@) == -1,
{
    let n = name.unicode_len();
    let mut i: usize = n;
    while i > 0
        invariant
            0 <= i <= n,
            n == name@.len(),
            forall|j: int| i <= j < n ==> name@[j] != '.',
        decreases i,
    {
        if name.get_char(i - 1) == '.' {
            proof {
                lemma_last_dot_pos_is(name@, i - 1);
            }
            return Some(i - 1);
        }
        i = i - 1;
    }
    proof {
        lemma_last_dot_pos_is(name@, -1);
    }
    None
}

/// The stem of a file name (the name without its extension); `None` only for
/// the empty name. The input is a bare file name, not a path.
pub fn get_filename_stem(name: &str) -> (r: Option<String>)
    ensures
        r is Some <==> name@.len() > 0,
        r matches Some(st) ==> st@ == stem_of(name@),
{
    let n = name.unicode_len();
    if n == 0 {
        return None;
    }
    match find_last_dot(name) {
        Some(k) if k > 0 => Some(name.substring_char(0, k).to_owned()),
        _ => Some(name.to_owned()),
    }
}

/// The fixed allow-list of audio file extensions, matched case-sensitively.
pub open spec fn is_audio_ext(e: Seq<char>) -> bool {
    ||| e == "mp3"@
    ||| e == "flac"@
    ||| e == "wav"@
    ||| e == "ogg"@
    ||| e == "m4a"@
    ||| e == "aac"@
    ||| e == "alac"@
    ||| e == "aiff"@
    ||| e == "dsd"@
    ||| e == "opus"@
    ||| e == "wma"@
    ||| e == "amr"@
    ||| e == "ape"@
}

/// Whether a file name carries one of the audio extensions.
pub open spec fn audio_file_name(s: Seq<char>) -> bool {
    is_audio_ext(extension_of(s))
}

/// Whether the file name's extension is on the audio allow-list
/// (case-sensitive). The input is a bare file name, not a path.
pub fn is_audio_file(name: &str) -> (r: bool)
    ensures
        r == audio_file_name(name@),
        r ==> name@.len() > 0,
{
    let n = name.unicode_len();
    match find_last_dot(name) {
        Some(k) if k > 0 => {
            let ext = name.substring_char(k + 1, n);
            proof {
                assert(ext@ == extension_of(name@));
            }
            let hit = str_eq(ext, "mp3") || str_eq(ext, "flac") || str_eq(ext, "wav") || str_eq(
                ext,
                "ogg",
            ) || str_eq(ext, "m4a") || str_eq(ext, "aac") || str_eq(ext, "alac") || str_eq(
                ext,
                "aiff",
            ) || str_eq(ext, "dsd") || str_eq(ext, "opus") || str_eq(ext, "wma") || str_eq(
                ext,
                "amr",
            ) || str_eq(ext, "ape");
            proof {
                assert(hit == is_audio_ext(ext@));
            }
            hit
        },
        _ => {
            proof {
                reveal_strlit("mp3");
                reveal_strlit("flac");
                reveal_strlit("wav");
                reveal_strlit("ogg");
                reveal_strlit("m4a");
                reveal_strlit("aac");
                reveal_strlit("alac");
                reveal_strlit("aiff");
                reveal_strlit("dsd");
                reveal_strlit("opus");
                reveal_strlit("wma");
                reveal_strlit("amr");
                reveal_strlit("ape");
                assert(extension_of(name@) =~= Seq::<char>::empty());
                assert(!audio_file_name(name@));
            }
            false
        },
    }
}

// ---------- track file names ----------

/// First index at or after `i` whose character is not a decimal digit.
pub open spec fn digits_end(s: Seq<char>, i: int) -> int
    decreases s.len() - i,
{
    if i < 0 || i >= s.len() {
        i
    } else if is_digit(s[i]) {
        digits_end(s, i + 1)
    } else {
        i
    }
}

/// First index at or after `i` whose character is not whitespace.
pub open spec fn ws_end(s: Seq<char>, i: int) -> int
    decreases s.len() - i,
{
    if i < 0 || i >= s.len() {
        i
    } else if is_space(s[i]) {
        ws_end(s, i + 1)
    } else {
        i
    }
}

/// Length of `s[0..i]` once trailing whitespace is removed.
pub open spec fn ws_trim_end(s: Seq<char>, i: int) -> int
    decreases i,
{
    if i <= 0 {
        0
    } else if is_space(s[i - 1]) {
        ws_trim_end(s, i - 1)
    } else {
        i
    }
}

/// Whether index `q` of `rest` can split it into a discarded artist segment
/// and a track title: a `-` preceded by a non-empty segment and followed,
/// after optional whitespace, by a non-empty title.
pub open spec fn split_cond(rest: Seq<char>, q: int) -> bool {
    &&& 1 <= q < rest.len()
    &&& rest[q] == '-'
    &&& ws_trim_end(rest, q) > 0
    &&& ws_end(rest, q + 1) < rest.len()
}

/// Smallest splitting index of `rest` at or after `p`, or `-1` if none; the
/// embedded artist segment, when present, ends at the first such `-`.
pub open spec fn artist_split_pos(rest: Seq<char>, p: int) -> int
    decreases rest.len() - p,
{
    if p < 0 || p >= rest.len() {
        -1
    } else if split_cond(rest, p) {
        p
    } else {
        artist_split_pos(rest, p + 1)
    }
}

/// Mathematical image of the fields parsed from a track file stem.
pub ghost struct TrackInfoV {
    pub track_number: int,
    pub title: Seq<char>,
}

/// Structured fields parsed from a track file stem.
pub struct TrackInfo {
    pub track_number: i32,
    pub title: String,
}

impl View for TrackInfo {
    type V = TrackInfoV;

    open spec fn view(&self) -> TrackInfoV {
        TrackInfoV { track_number: self.track_number as int, title: self.title@ }
    }
}

/// What a track file stem of the shape
/// `<digits> <'.' or '-'> [<artist> - ]<title>` parses to.
///
/// The leading digits are the track number (a stem whose number does not fit
/// an `i32` is treated as unparsable, keeping the parser total); the title is
/// everything after the separator and, when one is embedded, after the first
/// `<artist> - ` segment, which is discarded.
pub open spec fn parse_track_spec(s: Seq<char>) -> Option<TrackInfoV> {
    let nd = digits_end(s, 0);
    let i = ws_end(s, nd);
    if nd == 0 || i >= s.len() || !(s[i] == '.' || s[i] == '-') {
        None
    } else {
        let j = ws_end(s, i + 1);
        let num = digits_val(s.subrange(0, nd));
        if j >= s.len() || num > i32::MAX {
            None
        } else {
            let rest = s.subrange(j, s.len() as int);
            let q = artist_split_pos(rest, 1);
            let title = if q >= 0 {
                rest.subrange(ws_end(rest, q + 1), rest.len() as int)
            } else {
                rest
            };
            Some(TrackInfoV { track_number: num, title })
        }
    }
}

proof fn lemma_digits_end_is(s: Seq<char>, i: int, k: int)
    requires
        0 <= i <= k <= s.len(),
        forall|j: int| i <= j < k ==> is_digit(#[trigger] s[j]),
        k < s.len() ==> !is_digit(s[k]),
    ensures
        digits_end(s, i) == k,
    decreases k - i,
{
    if i < k {
        lemma_digits_end_is(s, i + 1, k);
    }
}

proof fn lemma_ws_end_is(s: Seq<char>, i: int, k: int)
    requires
        0 <= i <= k <= s.len(),
        forall|j: int| i <= j < k ==> is_space(#[trigger] s[j]),
        k < s.len() ==> !is_space(s[k]),
    ensures
        ws_end(s, i) == k,
    decreases k - i,
{
    if i < k {
        lemma_ws_end_is(s, i + 1, k);
    }
}

proof fn lemma_ws_trim_end_is(s: Seq<char>, i: int, k: int)
    requires
        0 <= k <= i <= s.len(),
        forall|j: int| k <= j < i ==> is_space(#[trigger] s[j]),
        k > 0 ==> !is_space(s[k - 1]),
    ensures
        ws_trim_end(s, i) == k,
    decreases i - k,
{
    if k < i {
        lemma_ws_trim_end_is(s, i - 1, k);
    }
}

proof fn lemma_split_pos_is(rest: Seq<char>, p: int, q: int)
    requires
        0 <= p <= q < rest.len(),
        split_cond(rest, q),
        forall|r: int| p <= r < q ==> !split_cond(rest, r),
    ensures
        artist_split_pos(rest, p) == q,
    decreases q - p,
{
    if p < q {
        lemma_split_pos_is(rest, p + 1, q);
    }
}

proof fn lemma_split_pos_none(rest: Seq<char>, p: int)
    requires
        0 <= p,
        forall|r: int| p <= r < rest.len() ==> !split_cond(rest, r),
    ensures
        artist_split_pos(rest, p) == -1,
    decreases rest.len() - p,
{
    if p < rest.len() {
        lemma_split_pos_none(rest, p + 1);
    }
}

/// Scan forward from `from`, skipping decimal digits.
fn scan_digits(s: &str, from: usize) -> (k: usize)
    requires
        from <= s@.len(),
    ensures
        k == digits_end(s@, from as int),
        from <= k <= s@.len(),
        forall|j: int| from <= j < k ==> is_digit(#[trigger] s@[j]),
        k < s@.len() ==> !is_digit(s@[k as int]),
{
    let n = s.unicode_len();
    let mut k: usize = from;
    while k < n && digit_exec(s.get_char(k))
        invariant
            from <= k <= n,
            n == s@.len(),
            forall|j: int| from <= j < k ==> is_digit(#[trigger] s@[j]),
        decreases n - k,
    {
        k = k + 1;
    }
    proof {
        lemma_digits_end_is(s@, from as int, k as int);
    }
    k
}

/// Scan forward from `from`, skipping whitespace.
fn scan_ws(s: &str, from: usize) -> (k: usize)
    requires
        from <= s@.len(),
    ensures
        k == ws_end(s@, from as int),
        from <= k <= s@.len(),
        forall|j: int| from <= j < k ==> is_space(#[trigger] s@[j]),
        k < s@.len() ==> !is_space(s@[k as int]),
{
    let n = s.unicode_len();
    let mut k: usize = from;
    while k < n && space_exec(s.get_char(k))
        invariant
            from <= k <= n,
            n == s@.len(),
            forall|j: int| from <= j < k ==> is_space(#[trigger] s@[j]),
        decreases n - k,
    {
        k = k + 1;
    }
    proof {
        lemma_ws_end_is(s@, from as int, k as int);
    }
    k
}

/// Parse a track file stem of the shape
/// `<digits> <'.' or '-'> [<artist> - ]<title>`.
///
/// Returns the leading integer as the track number and the title with any
/// embedded `<artist> - ` segment discarded; stems of any other shape, and
/// stems whose leading number does not fit an `i32`, yield `None`.
pub fn parse_track(stem: &str) -> (r: Option<TrackInfo>)
    ensures
        r is Some <==> parse_track_spec(stem@) is Some,
        r matches Some(t) ==> parse_track_spec(stem@) == Some(t@),
{
    let n = stem.unicode_len();
    let nd = scan_digits(stem, 0);
    if nd == 0 {
        return None;
    }
    let i = scan_ws(stem, nd);
    if i >= n {
        return None;
    }
    let sep = stem.get_char(i);
    if !(sep == '.' || sep == '-') {
        return None;
    }
    let j = scan_ws(stem, i + 1);
    if j >= n {
        return None;
    }
    // The digits' value, bailing out as unparsable if it exceeds i32::MAX.
    let mut val: i64 = 0;
    let mut idx: usize = 0;
    while idx < nd
        invariant
            0 <= idx <= nd <= stem@.len(),
            n == stem@.len(),
            nd == digits_end(stem@, 0),
            0 < nd,
            i == ws_end(stem@, nd as int),
            i < n,
            stem@[i as int] == '.' || stem@[i as int] == '-',
            j == ws_end(stem@, i + 1),
            j < n,
            forall|m: int| 0 <= m < nd ==> is_digit(#[trigger] stem@[m]),
            val == digits_val(stem@.subrange(0, idx as int)),
            0 <= val <= i32::MAX,
        decreases nd - idx,
    {
        let d = stem.get_char(idx) as u32 as i64 - 48;
        proof {
            let ghost pre = stem@.subrange(0, idx as int);
            let ghost cur = stem@.subrange(0, idx + 1);
            assert(cur.drop_last() =~= pre);
            assert(digits_val(cur) == digits_val(pre) * 10 + digit_val(stem@[idx as int]));
        }
        val = val * 10 + d;
        if val > i32::MAX as i64 {
            proof {
                let ghost full = stem@.subrange(0, nd as int);
                assert(forall|m: int| 0 <= m < full.len() ==> is_digit(#[trigger] full[m]));
                lemma_digits_val_prefix_mono(full, idx + 1);
                assert(full.subrange(0, idx + 1) =~= stem@.subrange(0, idx + 1));
            }
            return None;
        }
        idx = idx + 1;
    }
    proof {
        assert(stem@.subrange(0, nd as int) =~= stem@.subrange(0, idx as int));
    }
    // Separate the remainder and discard an embedded artist segment, if any.
    let rest = stem.substring_char(j, n);
    let rn = rest.unicode_len();
    let mut q: usize = 1;
    let mut last_nonspace: usize = 0;
    // rest is non-empty and starts with a non-space character, so index 0 is
    // the last non-space seen before the scan begins.
    proof {
        assert(!is_space(rest@[0]));
    }
    while q < rn
        invariant
            1 <= q <= rn,
            rn == rest@.len(),
            rn >= 1,
            n == stem@.len(),
            nd == digits_end(stem@, 0),
            0 < nd <= n,
            i == ws_end(stem@, nd as int),
            i < n,
            stem@[i as int] == '.' || stem@[i as int] == '-',
            j == ws_end(stem@, i + 1),
            j < n,
            0 <= val <= i32::MAX,
            val == digits_val(stem@.subrange(0, nd as int)),
            rest@ == stem@.subrange(j as int, n as int),
            last_nonspace < q,
            !is_space(rest@[last_nonspace as int]),
            forall|m: int| last_nonspace < m < q ==> is_space(#[trigger] rest@[m]),
            forall|m: int| 1 <= m < q ==> !split_cond(rest@, m),
        decreases rn - q,
    {
        let c = rest.get_char(q);
        if c == '-' {
            proof {
                lemma_ws_trim_end_is(rest@, q as int, last_nonspace + 1);
            }
            let t = scan_ws(rest, q + 1);
            if t < rn {
                // This is the first splitting index: the title starts at `t`.
                proof {
                    assert(split_cond(rest@, q as int));
                    lemma_split_pos_is(rest@, 1, q as int);
                }
                let title = rest.substring_char(t, rn).to_owned();
                return Some(TrackInfo { track_number: val as i32, title });
            }
            // No title follows this `-`; it cannot split, nor can any later
            // index, past which only whitespace remains.
            proof {
                assert(forall|m: int| q < m < rn ==> is_space(#[trigger] rest@[m]));
                assert forall|m: int| q < m < rn implies !split_cond(rest@, m) by {
                    assert(rest@[m] != '-');
                }
                lemma_split_pos_none(rest@, 1);
            }
            let title = rest.to_owned();
            return Some(TrackInfo { track_number: val as i32, title });
        }
        if !space_exec(c) {
            last_nonspace = q;
        }
        q = q + 1;
    }
    proof {
        lemma_split_pos_none(rest@, 1);
    }
    let title = rest.to_owned();
    Some(TrackInfo { track_number: val as i32, title })
}

proof fn lemma_digits_val_nonneg(s: Seq<char>)
    requires
        forall|i: int| 0 <= i < s.len() ==> is_digit(#[trigger] s[i]),
    ensures
        digits_val(s) >= 0,
    decreases s.len(),
{
    if s.len() > 0 {
        lemma_digits_val_nonneg(s.drop_last());
    }
}

proof fn lemma_digits_val_prefix_mono(s: Seq<char>, m: int)
    requires
        forall|i: int| 0 <= i < s.len() ==> is_digit(#[trigger] s[i]),
        0 <= m <= s.len(),
    ensures
        digits_val(s.subrange(0, m)) <= digits_val(s),
    decreases s.len(),
{
    lemma_digits_val_nonneg(s.subrange(0, m));
    if m == s.len() {
        assert(s.subrange(0, m) =~= s);
    } else {
        let t = s.drop_last();
        assert(forall|i: int| 0 <= i < t.len() ==> is_digit(#[trigger] t[i]));
        assert(s.subrange(0, m) =~= t.subrange(0, m));
        lemma_digits_val_prefix_mono(t, m);
        lemma_digits_val_nonneg(t);
        assert(digits_val(s) == digits_val(t) * 10 + digit_val(s.last()));
    }
}


} // verus!

