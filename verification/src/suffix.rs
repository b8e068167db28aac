use std::fmt::Write as FmtWrite;
use core::cmp::Ordering;
use vstd::prelude::*;
use vstd::string::StringExecFns;

use crate::text::{
    dec_str, digits_val, find_char, find_char_str, lemma_find_char, lex_lt, lemma_lex_lt_trans,
    lemma_lex_lt_trichotomy, number_body, parse_usize, parses_as_usize, str_eq, str_lt,
    usize_to_string,
};

verus! {

// ---------------------------------------------------------------------------
// Suffix representations
// ---------------------------------------------------------------------------

/// A suffix that rotated log files carry after the base file name. Suffixes
/// are totally ordered by age: the most recent suffix is the smallest.
pub trait Representation: Sized {
    /// The order: `self` is at least as recent as `other`.
    spec fn spec_order_le(self, other: Self) -> bool;

    /// The suffix as it appears in a file name.
    spec fn spec_str(self) -> Seq<char>;

    /// The order is total (and so reflexive).
    proof fn lemma_le_total(a: Self, b: Self)
        ensures
            a.spec_order_le(b) || b.spec_order_le(a),
    ;

    /// The order is transitive.
    proof fn lemma_le_trans(a: Self, b: Self, c: Self)
        requires
            a.spec_order_le(b),
            b.spec_order_le(c),
        ensures
            a.spec_order_le(c),
    ;

    /// Decides the order.
    fn le(&self, other: &Self) -> (r: bool)
        ensures
            r == (*self).spec_order_le(*other),
    ;

    /// Renders the suffix as text.
    fn to_text(&self) -> (r: String)
        ensures
            r@ == (*self).spec_str(),
    ;

    /// The rotated file's full path: the base path, a dot, the suffix.
    fn to_path(&self, basepath: &str) -> (r: String)
        ensures
            r@ == basepath@ + seq!['.'] + (*self).spec_str(),
    {
        let mut s = basepath.to_owned();
        s.append(".");
        let t = self.to_text();
        s.append(t.as_str());
        proof {
            reveal_strlit(".");
            assert("."@ =~= seq!['.']);
            assert(s@ =~= basepath@ + seq!['.'] + (*self).spec_str());
        }
        s
    }
}

/// Plain counters: the greater the number, the older the file.
impl Representation for usize {
    open spec fn spec_order_le(self, other: Self) -> bool {
        self <= other
    }

    open spec fn spec_str(self) -> Seq<char> {
        dec_str(self as int)
    }

    proof fn lemma_le_total(a: Self, b: Self) {
    }

    proof fn lemma_le_trans(a: Self, b: Self, c: Self) {
    }

    fn le(&self, other: &Self) -> (r: bool) {
        *self <= *other
    }

    fn to_text(&self) -> (r: String) {
        usize_to_string(*self)
    }
}

/// One rotated file found beside the base path: its parsed suffix and
/// whether the file carries a compression mark.
pub struct SuffixInfo<R> {
    pub suffix: R,
    pub compressed: bool,
}

// ---------------------------------------------------------------------------
// Suffix schemes
// ---------------------------------------------------------------------------

/// How rotated files are named: which texts are suffixes of the scheme and
/// what they parse to.
pub trait SuffixScheme: Sized {
    /// The representation of the suffixes this scheme uses.
    type Repr: Representation;

    /// Whether `s` is a suffix of this scheme.
    spec fn spec_parsable(self, s: Seq<char>) -> bool;

    /// How a parsed suffix relates to the text it came from.
    spec fn spec_parses(self, s: Seq<char>, r: Self::Repr) -> bool;

    /// Parses a suffix from text.
    fn parse(&self, suffix: &str) -> (r: Option<Self::Repr>)
        ensures
            r is Some <==> (*self).spec_parsable(suffix@),
            r is Some ==> (*self).spec_parses(suffix@, r->0),
    ;
}

// ---------------------------------------------------------------------------
// Counted suffixes
// ---------------------------------------------------------------------------

/// Rotated files get a number as suffix; the greater the number, the older
/// the file, and the oldest files are deleted once there are too many.
pub struct CountSuffix {
    max_files: usize,
}

impl CountSuffix {
    /// The configured limit: the largest suffix number that may exist.
    pub closed spec fn spec_max_files(&self) -> usize {
        self.max_files
    }

    /// A scheme that deletes files when the total number of rotated files
    /// would pass `max_files`.
    pub fn new(max_files: usize) -> (r: Self)
        ensures
            r.spec_max_files() == max_files,
    {
        CountSuffix { max_files }
    }

    /// The suffix for the file being rotated: one past the suffix it had, or
    /// `1` for the main file.
    pub fn rotate_file(
        &mut self,
        _basepath: &str,
        newest_suffix: Option<&usize>,
        suffix: &Option<usize>,
    ) -> (r: usize)
        requires
            match suffix {
                Some(s) => *s < usize::MAX,
                None => true,
            },
        ensures
            r == match suffix {
                Some(s) => *s + 1,
                None => 1int,
            },
            *final(self) == *old(self),
    {
        match suffix {
            Some(s) => *s + 1,
            None => 1,
        }
    }

    /// Whether the rotated file at this position (`0` is the most recent) is
    /// over the configured limit and should be deleted.
    pub fn too_old(&self, _suffix: &usize, file_number: usize) -> (r: bool)
        ensures
            r == (file_number >= self.spec_max_files()),
    {
        file_number >= self.max_files
    }
}

impl SuffixScheme for CountSuffix {
    type Repr = usize;

    open spec fn spec_parsable(self, s: Seq<char>) -> bool {
        parses_as_usize(s)
    }

    open spec fn spec_parses(self, s: Seq<char>, r: usize) -> bool {
        r == digits_val(number_body(s))
    }

    fn parse(&self, suffix: &str) -> (r: Option<usize>) {
        parse_usize(suffix)
    }
}

// ---------------------------------------------------------------------------
// Timestamp suffixes
// ---------------------------------------------------------------------------

/// A timestamp suffix: the rendered timestamp, and a tie-breaking number when
/// two rotations fall on the same rendered timestamp.
#[derive(Clone, Debug)]
pub struct TimestampSuffix {
    pub timestamp: String,
    pub number: Option<usize>,
}

/// The tie-breaking order on numbers: none comes before any number.
pub open spec fn opt_num_lt(x: Option<usize>, y: Option<usize>) -> bool {
    match x {
        None => y is Some,
        Some(a) => match y {
            None => false,
            Some(b) => a < b,
        },
    }
}

/// Strictly more recent: a later timestamp, or the same timestamp with a
/// later tie-breaking number. Most recent first means the greater timestamp
/// is the smaller suffix.
pub open spec fn ts_lt(a: TimestampSuffix, b: TimestampSuffix) -> bool {
    ||| lex_lt(b.timestamp@, a.timestamp@)
    ||| (a.timestamp@ == b.timestamp@ && opt_num_lt(b.number, a.number))
}

impl Representation for TimestampSuffix {
    open spec fn spec_order_le(self, other: Self) -> bool {
        ts_lt(self, other) || (self.timestamp@ == other.timestamp@ && self.number == other.number)
    }

    open spec fn spec_str(self) -> Seq<char> {
        match self.number {
            Some(n) => self.timestamp@ + seq!['.'] + dec_str(n as int),
            None => self.timestamp@,
        }
    }

    proof fn lemma_le_total(a: Self, b: Self) {
        lemma_lex_lt_trichotomy(a.timestamp@, b.timestamp@);
    }

    proof fn lemma_le_trans(a: Self, b: Self, c: Self) {
        if lex_lt(b.timestamp@, a.timestamp@) && lex_lt(c.timestamp@, b.timestamp@) {
            lemma_lex_lt_trans(c.timestamp@, b.timestamp@, a.timestamp@);
        }
    }

    fn le(&self, other: &Self) -> (r: bool) {
        if str_lt(other.timestamp.as_str(), self.timestamp.as_str()) {
            true
        } else if str_eq(self.timestamp.as_str(), other.timestamp.as_str()) {
            match (other.number, self.number) {
                (None, None) => true,
                (None, Some(_)) => true,
                (Some(_), None) => false,
                (Some(b), Some(a)) => b <= a,
            }
        } else {
            false
        }
    }

    fn to_text(&self) -> (r: String) {
        match self.number {
            Some(n) => {
                let mut s = self.timestamp.clone();
                s.append(".");
                let t = usize_to_string(n);
                s.append(t.as_str());
                proof {
                    reveal_strlit(".");
                    assert("."@ =~= seq!['.']);
                    assert(s@ =~= (*self).spec_str());
                }
                s
            },
            None => self.timestamp.clone(),
        }
    }
}

impl PartialEq for TimestampSuffix {
    fn eq(&self, other: &Self) -> (r: bool) {
        let ts_same = str_eq(self.timestamp.as_str(), other.timestamp.as_str());
        let num_same = match (self.number, other.number) {
            (None, None) => true,
            (Some(a), Some(b)) => a == b,
            _ => false,
        };
        ts_same && num_same
    }
}

impl vstd::std_specs::cmp::PartialEqSpecImpl for TimestampSuffix {
    open spec fn obeys_eq_spec() -> bool {
        true
    }

    open spec fn eq_spec(&self, other: &Self) -> bool {
        self.timestamp@ == other.timestamp@ && self.number == other.number
    }
}

impl PartialOrd for TimestampSuffix {
    fn partial_cmp(&self, other: &Self) -> (r: Option<Ordering>) {
        if str_lt(other.timestamp.as_str(), self.timestamp.as_str()) {
            Some(Ordering::Less)
        } else if str_eq(self.timestamp.as_str(), other.timestamp.as_str()) {
            match (other.number, self.number) {
                (None, None) => Some(Ordering::Equal),
                (None, Some(_)) => Some(Ordering::Less),
                (Some(_), None) => Some(Ordering::Greater),
                (Some(b), Some(a)) => {
                    if b < a {
                        Some(Ordering::Less)
                    } else if b == a {
                        Some(Ordering::Equal)
                    } else {
                        Some(Ordering::Greater)
                    }
                },
            }
        } else {
            Some(Ordering::Greater)
        }
    }
}

impl vstd::std_specs::cmp::PartialOrdSpecImpl for TimestampSuffix {
    open spec fn obeys_partial_cmp_spec() -> bool {
        true
    }

    open spec fn partial_cmp_spec(&self, other: &Self) -> Option<Ordering> {
        if ts_lt(*self, *other) {
            Some(Ordering::Less)
        } else if self.timestamp@ == other.timestamp@ && self.number == other.number {
            Some(Ordering::Equal)
        } else {
            Some(Ordering::Greater)
        }
    }
}

/// Whether `s` renders as a full datetime in format `fmt` is a fixed
/// function of the two texts.
pub uninterp spec fn datetime_parses(s: Seq<char>, fmt: Seq<char>) -> bool;

/// Whether a local moment renders under this format text. chrono turns a bad
/// format (a stray `%`, an unknown specifier) into an error item that makes
/// every rendering fail, while for a local datetime every other formatting
/// ingredient is always at hand — so success is fixed by the format text
/// alone.
pub uninterp spec fn datetime_format_ok(fmt: Seq<char>) -> bool;

/// Relies on chrono's format parser and formatter: probes the format by
/// rendering one moment, which succeeds or fails with every other moment
/// alike.
#[verifier::external_body]
fn check_datetime_format(fmt: &str) -> (r: bool)
    ensures
        r == datetime_format_ok(fmt@),
{
    let mut probe = String::new();
    write!(probe, "{}", chrono::Local::now().format(fmt)).is_ok()
}

/// Relies on chrono's `NaiveDateTime::parse_from_str`: whether the text is a
/// complete, consistent datetime in the given format depends on the two
/// strings alone.
#[verifier::external_body]
fn datetime_matches(s: &str, fmt: &str) -> (r: bool)
    ensures
        r == datetime_parses(s@, fmt@),
{
    chrono::NaiveDateTime::parse_from_str(s, fmt).is_ok()
}

/// Relies on chrono's `Local::now` and its formatter: the current local time
/// rendered with this format. Rendering a bad format panics inside
/// `to_string`, so the format must be known to render; the result depends on
/// the clock, so nothing is promised of it.
#[verifier::external_body]
fn local_now_formatted(fmt: &str) -> (r: String)
    requires
        datetime_format_ok(fmt@),
{
    chrono::Local::now().format(fmt).to_string()
}

/// Relies on chrono's `Local::now`, its duration type and the formatter:
/// the local time `age_secs` seconds ago, rendered with this format. The
/// bound on `age_secs` keeps both the duration constructor and the shifted
/// time inside chrono's representable range, where they would panic, and the
/// format must be known to render, else `to_string` panics; the result
/// depends on the clock, so nothing is promised of it.
#[verifier::external_body]
fn local_cutoff_formatted(age_secs: i64, fmt: &str) -> (r: String)
    requires
        -8_000_000_000_000 <= age_secs <= 8_000_000_000_000,
        datetime_format_ok(fmt@),
{
    (chrono::Local::now() - chrono::Duration::seconds(age_secs)).format(fmt).to_string()
}

/// How to decide that a rotated file should be deleted, for timestamp
/// suffixes.
#[derive(Clone, Copy, Debug, PartialEq, Eq, Structural)]
pub enum FileLimit {
    /// Delete the oldest files when there are more rotated files than this.
    MaxFiles(usize),
    /// Delete rotated files older than this many seconds, judged by their
    /// timestamp suffix.
    Age(i64),
}

/// Rotated files are named by the time of rotation. The format must neither
/// contain a dot nor break the rule that lexical and chronological order
/// agree.
pub struct TimestampSuffixScheme {
    /// The rendering of the timestamp.
    pub format: &'static str,
    /// When an old rotated file is deleted.
    pub file_limit: FileLimit,
}

/// The suffix for the next rotation of the main file: the current time's
/// text, with the tie-breaking number advanced when the newest existing
/// suffix already carries the same text.
pub fn next_timestamp_suffix(now: String, newest_suffix: Option<&TimestampSuffix>) -> (r:
    TimestampSuffix)
    requires
        match newest_suffix {
            Some(nw) => match nw.number {
                Some(k) => k < usize::MAX,
                None => true,
            },
            None => true,
        },
    ensures
        r.timestamp@ == now@,
        r.number == match newest_suffix {
            Some(nw) => if nw.timestamp@ == now@ {
                Some(
                    (match nw.number {
                        Some(k) => k + 1,
                        None => 1int,
                    }) as usize,
                )
            } else {
                None::<usize>
            },
            None => None::<usize>,
        },
{
    let number = match newest_suffix {
        Some(nw) => {
            if str_eq(nw.timestamp.as_str(), now.as_str()) {
                Some(
                    match nw.number {
                        Some(k) => k + 1,
                        None => 1,
                    },
                )
            } else {
                None
            }
        },
        None => None,
    };
    TimestampSuffix { timestamp: now, number }
}

impl TimestampSuffixScheme {
    /// The scheme with the format `%Y%m%dT%H%M%S`.
    pub fn default(file_limit: FileLimit) -> (r: Self)
        ensures
            r.format@ == "%Y%m%dT%H%M%S"@,
            r.file_limit == file_limit,
    {
        TimestampSuffixScheme { format: "%Y%m%dT%H%M%S", file_limit }
    }

    /// The scheme with a caller-chosen format.
    pub fn with_format(format: &'static str, file_limit: FileLimit) -> (r: Self)
        ensures
            r.format@ == format@,
            r.file_limit == file_limit,
    {
        TimestampSuffixScheme { format, file_limit }
    }

    /// The suffix the rotated main file moves to. Under this scheme only the
    /// main file is ever renamed, so `suffix` must be `None`; the result
    /// carries the current time's text, with the tie-breaking number advanced
    /// when the newest suffix already carries the same text.
    pub fn rotate_file(
        &mut self,
        _basepath: &str,
        newest_suffix: Option<&TimestampSuffix>,
        suffix: &Option<TimestampSuffix>,
    ) -> (r: TimestampSuffix)
        requires
            suffix is None,
            datetime_format_ok(self.format@),
            match newest_suffix {
                Some(nw) => match nw.number {
                    Some(k) => k < usize::MAX,
                    None => true,
                },
                None => true,
            },
        ensures
            r.number == match newest_suffix {
                Some(nw) => if nw.timestamp@ == r.timestamp@ {
                    Some(
                        (match nw.number {
                            Some(k) => k + 1,
                            None => 1int,
                        }) as usize,
                    )
                } else {
                    None::<usize>
                },
                None => None::<usize>,
            },
            *final(self) == *old(self),
    {
        let now = local_now_formatted(self.format);
        next_timestamp_suffix(now, newest_suffix)
    }

    /// Whether a rotated file should be deleted: under a file-count limit, by
    /// its position (`0` is the most recent); under an age limit, by its
    /// timestamp text falling before the rendered cutoff time, which depends
    /// on the clock.
    pub fn too_old(&self, suffix: &TimestampSuffix, file_number: usize) -> (r: bool)
        requires
            match self.file_limit {
                FileLimit::Age(a) => -8_000_000_000_000 <= a <= 8_000_000_000_000
                    && datetime_format_ok(self.format@),
                FileLimit::MaxFiles(_) => true,
            },
        ensures
            match self.file_limit {
                FileLimit::MaxFiles(m) => r == (file_number >= m),
                FileLimit::Age(_) => true,
            },
    {
        match self.file_limit {
            FileLimit::MaxFiles(max_files) => file_number >= max_files,
            FileLimit::Age(age_secs) => {
                let cutoff = local_cutoff_formatted(age_secs, self.format);
                timestamp_older_than(suffix, cutoff.as_str())
            },
        }
    }

    /// [`Self::rotate_file`] behind a probe of the configured format: the
    /// rotation suffix when the format renders, and nothing when it does not
    /// (a bad format would make the clock rendering fail).
    pub fn checked_rotate_file(
        &mut self,
        basepath: &str,
        newest_suffix: Option<&TimestampSuffix>,
        suffix: &Option<TimestampSuffix>,
    ) -> (r: Option<TimestampSuffix>)
        requires
            suffix is None,
            match newest_suffix {
                Some(nw) => match nw.number {
                    Some(k) => k < usize::MAX,
                    None => true,
                },
                None => true,
            },
        ensures
            r is Some <==> datetime_format_ok(old(self).format@),
            r is Some ==> (r->0).number == match newest_suffix {
                Some(nw) => if nw.timestamp@ == (r->0).timestamp@ {
                    Some(
                        (match nw.number {
                            Some(k) => k + 1,
                            None => 1int,
                        }) as usize,
                    )
                } else {
                    None::<usize>
                },
                None => None::<usize>,
            },
            *final(self) == *old(self),
    {
        if check_datetime_format(self.format) {
            Some(self.rotate_file(basepath, newest_suffix, suffix))
        } else {
            None
        }
    }

    /// [`Self::too_old`] behind a probe of the configured format: the verdict
    /// when it can be given, and nothing when an age limit is configured with
    /// a format that does not render.
    pub fn checked_too_old(&self, suffix: &TimestampSuffix, file_number: usize) -> (r: Option<
        bool,
    >)
        requires
            match self.file_limit {
                FileLimit::Age(a) => -8_000_000_000_000 <= a <= 8_000_000_000_000,
                FileLimit::MaxFiles(_) => true,
            },
        ensures
            match self.file_limit {
                FileLimit::MaxFiles(m) => r is Some && r->0 == (file_number >= m),
                FileLimit::Age(_) => r is Some <==> datetime_format_ok(self.format@),
            },
    {
        match self.file_limit {
            FileLimit::MaxFiles(_) => Some(self.too_old(suffix, file_number)),
            FileLimit::Age(_) => {
                if check_datetime_format(self.format) {
                    Some(self.too_old(suffix, file_number))
                } else {
                    None
                }
            },
        }
    }
}

/// Whether a suffix's timestamp text falls strictly before a cutoff text in
/// lexicographic order — with a format whose lexical and chronological
/// orders agree, whether the rotation is older than the cutoff time.
pub fn timestamp_older_than(suffix: &TimestampSuffix, cutoff: &str) -> (r: bool)
    ensures
        r == lex_lt(suffix.timestamp@, cutoff@),
{
    str_lt(suffix.timestamp.as_str(), cutoff)
}

impl SuffixScheme for TimestampSuffixScheme {
    type Repr = TimestampSuffix;

    open spec fn spec_parsable(self, s: Seq<char>) -> bool {
        match find_char(s, '.') {
            None => datetime_parses(s, self.format@),
            Some(d) => parses_as_usize(s.skip(d + 1)) && datetime_parses(s.take(d), self.format@),
        }
    }

    open spec fn spec_parses(self, s: Seq<char>, r: TimestampSuffix) -> bool {
        match find_char(s, '.') {
            None => r.timestamp@ == s && r.number is None,
            Some(d) => r.timestamp@ == s.take(d) && r.number is Some && r.number->0 == digits_val(
                number_body(s.skip(d + 1)),
            ),
        }
    }

    fn parse(&self, suffix: &str) -> (r: Option<TimestampSuffix>) {
        let n = suffix.unicode_len();
        match find_char_str(suffix, '.') {
            Some(d) => {
                proof {
                    lemma_find_char(suffix@, '.');
                }
                let numpart = suffix.substring_char(d + 1, n);
                proof {
                    assert(numpart@ =~= suffix@.skip(d + 1));
                }
                match parse_usize(numpart) {
                    Some(k) => {
                        let ts = suffix.substring_char(0, d);
                        proof {
                            assert(ts@ =~= suffix@.take(d as int));
                        }
                        if datetime_matches(ts, self.format) {
                            Some(TimestampSuffix { timestamp: ts.to_owned(), number: Some(k) })
                        } else {
                            None
                        }
                    },
                    None => None,
                }
            },
            None => {
                if datetime_matches(suffix, self.format) {
                    Some(TimestampSuffix { timestamp: suffix.to_owned(), number: None })
                } else {
                    None
                }
            },
        }
    }
}

// ---------------------------------------------------------------------------
// Scanning a directory listing for rotated files
// ---------------------------------------------------------------------------

/// A file name split from its compression mark: one trailing `.gz` stripped,
/// and whether it was there.
pub open spec fn gz_split(s: Seq<char>) -> (Seq<char>, bool) {
    if s.len() >= 3 && s.skip(s.len() - 3) == seq!['.', 'g', 'z'] {
        (s.take(s.len() - 3), true)
    } else {
        (s, false)
    }
}

/// Strips one trailing `.gz` from a file name, reporting whether it was
/// there.
pub fn prepare_filename(path: &str) -> (r: (&str, bool))
    ensures
        r.0@ == gz_split(path@).0,
        r.1 == gz_split(path@).1,
{
    let n = path.unicode_len();
    if n >= 3 && path.get_char(n - 3) == '.' && path.get_char(n - 2) == 'g' && path.get_char(
        n - 1,
    ) == 'z' {
        proof {
            assert(path@.skip(n - 3) =~= seq![path@[n - 3], path@[n - 2], path@[n - 1]]);
        }
        (path.substring_char(0, n - 3), true)
    } else {
        proof {
            if path@.len() >= 3 {
                let t = path@.skip(path@.len() - 3);
                assert(t =~= seq![path@[n - 3], path@[n - 2], path@[n - 1]]);
                if path@[n - 3] != '.' || path@[n - 2] != 'g' || path@[n - 1] != 'z' {
                    assert(t != seq!['.', 'g', 'z']) by {
                        if t == seq!['.', 'g', 'z'] {
                            assert(t[0] == '.' && t[1] == 'g' && t[2] == 'z');
                        }
                    }
                }
            }
            assert(path@.subrange(0, n as int) =~= path@);
        }
        (path.substring_char(0, n), false)
    }
}

/// Whether `name` names a rotated companion of the base file: the base name,
/// a dot, and a parsable suffix, with an optional compression mark.
#[verifier::opaque]
pub open spec fn spec_scan_match<S: SuffixScheme>(
    scheme: S,
    base: Seq<char>,
    name: Seq<char>,
) -> bool {
    let stem_full = gz_split(name).0;
    &&& stem_full.len() > base.len()
    &&& stem_full.take(base.len() as int) == base
    &&& stem_full[base.len() as int] == '.'
    &&& scheme.spec_parsable(stem_full.skip(base.len() + 1 as int))
}

/// The suffixes are sorted from most recent to oldest.
pub open spec fn sorted_suffixes<R: Representation>(s: Seq<SuffixInfo<R>>) -> bool {
    forall|k1: int, k2: int|
        #![trigger s[k1], s[k2]]
        0 <= k1 <= k2 < s.len() ==> s[k1].suffix.spec_order_le(s[k2].suffix)
}

proof fn lemma_seq_insert_elems<A>(s: Seq<A>, p: int, x: A)
    requires
        0 <= p <= s.len(),
    ensures
        s.insert(p, x).len() == s.len() + 1,
        forall|k: int| 0 <= k < p ==> #[trigger] s.insert(p, x)[k] == s[k],
        s.insert(p, x)[p] == x,
        forall|k: int| p < k <= s.len() ==> #[trigger] s.insert(p, x)[k] == s[k - 1],
{
    let t = s.insert(p, x);
    assert(t =~= s.take(p) + seq![x] + s.skip(p));
}

/// Position of the first suffix that does not come before `item`.
fn lower_bound<R: Representation>(v: &Vec<SuffixInfo<R>>, item: &SuffixInfo<R>) -> (p: usize)
    ensures
        p <= v@.len(),
        forall|j: int| 0 <= j < p ==> (#[trigger] v@[j]).suffix.spec_order_le(item.suffix),
        p < v@.len() ==> !v@[p as int].suffix.spec_order_le(item.suffix),
{
    let mut p: usize = 0;
    while p < v.len()
        invariant
            p <= v@.len(),
            forall|j: int| 0 <= j < p ==> (#[trigger] v@[j]).suffix.spec_order_le(item.suffix),
        decreases v@.len() - p,
    {
        if !v[p].suffix.le(&item.suffix) {
            return p;
        }
        p = p + 1;
    }
    p
}

/// Inserts a suffix into a sorted listing, keeping it sorted.
fn insert_sorted<R: Representation>(v: &mut Vec<SuffixInfo<R>>, item: SuffixInfo<R>)
    requires
        sorted_suffixes(old(v)@),
    ensures
        sorted_suffixes(final(v)@),
        exists|p: int| 0 <= p <= old(v)@.len() && final(v)@ == old(v)@.insert(p, item),
{
    let ghost s0 = v@;
    let p = lower_bound(v, &item);
    let ghost pos = p as int;
    v.insert(p, item);
    proof {
        lemma_seq_insert_elems(s0, pos, item);
        if pos < s0.len() {
            R::lemma_le_total(s0[pos].suffix, item.suffix);
        }
        assert forall|k1: int, k2: int|
            #![trigger v@[k1], v@[k2]]
            0 <= k1 <= k2 < v@.len() implies v@[k1].suffix.spec_order_le(v@[k2].suffix) by {
            if k1 < pos && k2 < pos {
            } else if k1 < pos && k2 == pos {
            } else if k1 == pos && k2 == pos {
                R::lemma_le_total(item.suffix, item.suffix);
            } else if k1 == pos && k2 > pos {
                R::lemma_le_trans(item.suffix, s0[pos].suffix, s0[k2 - 1].suffix);
            } else if k1 < pos && k2 > pos {
            } else {
            }
        }
        assert(v@ == s0.insert(pos, item));
    }
}

/// What one entry of a scan says about the file it came from: the file is a
/// rotated companion of the base name, and the entry carries its parsed
/// suffix and compression mark.
#[verifier::opaque]
pub open spec fn entry_from<S: SuffixScheme>(
    scheme: S,
    base: Seq<char>,
    name: Seq<char>,
    e: SuffixInfo<S::Repr>,
) -> bool {
    &&& spec_scan_match(scheme, base, name)
    &&& e.compressed == gz_split(name).1
    &&& scheme.spec_parses(gz_split(name).0.skip(base.len() + 1 as int), e.suffix)
}

/// Every entry of the listing comes from one of the first `n` file names.
pub open spec fn scan_sound<S: SuffixScheme>(
    scheme: S,
    base: Seq<char>,
    fs: Seq<String>,
    n: int,
    out: Seq<SuffixInfo<S::Repr>>,
) -> bool {
    forall|k: int|
        #![trigger out[k]]
        0 <= k < out.len() ==> exists|j: int|
            #![trigger fs[j]]
            0 <= j < n && entry_from(scheme, base, fs[j]@, out[k])
}

/// Every rotated companion among the first `n` file names has an entry.
pub open spec fn scan_complete<S: SuffixScheme>(
    scheme: S,
    base: Seq<char>,
    fs: Seq<String>,
    n: int,
    out: Seq<SuffixInfo<S::Repr>>,
) -> bool {
    forall|j: int|
        #![trigger fs[j]]
        0 <= j < n && spec_scan_match(scheme, base, fs[j]@) ==> exists|k: int|
            #![trigger out[k]]
            0 <= k < out.len() && entry_from(scheme, base, fs[j]@, out[k])
}

proof fn lemma_scan_step_insert<S: SuffixScheme>(
    scheme: S,
    base: Seq<char>,
    fs: Seq<String>,
    j: int,
    out_prev: Seq<SuffixInfo<S::Repr>>,
    out_new: Seq<SuffixInfo<S::Repr>>,
    it: SuffixInfo<S::Repr>,
    p: int,
)
    requires
        0 <= j < fs.len(),
        0 <= p <= out_prev.len(),
        out_new == out_prev.insert(p, it),
        entry_from(scheme, base, fs[j]@, it),
        scan_sound(scheme, base, fs, j, out_prev),
        scan_complete(scheme, base, fs, j, out_prev),
    ensures
        scan_sound(scheme, base, fs, j + 1, out_new),
        scan_complete(scheme, base, fs, j + 1, out_new),
{
    lemma_seq_insert_elems(out_prev, p, it);
    assert forall|k: int|
        #![trigger out_new[k]]
        0 <= k < out_new.len() implies exists|jj: int|
        #![trigger fs[jj]]
        0 <= jj < j + 1 && entry_from(scheme, base, fs[jj]@, out_new[k]) by {
        if k < p {
            assert(out_new[k] == out_prev[k]);
            let jj = choose|jj: int|
                #![trigger fs[jj]]
                0 <= jj < j && entry_from(scheme, base, fs[jj]@, out_prev[k]);
            assert(0 <= jj < j + 1 && entry_from(scheme, base, fs[jj]@, out_new[k]));
        } else if k == p {
            assert(out_new[k] == it);
            assert(0 <= j < j + 1 && entry_from(scheme, base, fs[j]@, out_new[k]));
        } else {
            assert(out_new[k] == out_prev[k - 1]);
            let jj = choose|jj: int|
                #![trigger fs[jj]]
                0 <= jj < j && entry_from(scheme, base, fs[jj]@, out_prev[k - 1]);
            assert(0 <= jj < j + 1 && entry_from(scheme, base, fs[jj]@, out_new[k]));
        }
    }
    assert forall|jj: int|
        #![trigger fs[jj]]
        0 <= jj < j + 1 && spec_scan_match(scheme, base, fs[jj]@) implies exists|k: int|
        #![trigger out_new[k]]
        0 <= k < out_new.len() && entry_from(scheme, base, fs[jj]@, out_new[k]) by {
        if jj < j {
            let k0 = choose|k0: int|
                #![trigger out_prev[k0]]
                0 <= k0 < out_prev.len() && entry_from(scheme, base, fs[jj]@, out_prev[k0]);
            if k0 < p {
                assert(out_new[k0] == out_prev[k0]);
                assert(0 <= k0 < out_new.len() && entry_from(scheme, base, fs[jj]@, out_new[k0]));
            } else {
                assert(out_new[k0 + 1] == out_prev[k0]);
                assert(0 <= k0 + 1 < out_new.len() && entry_from(
                    scheme,
                    base,
                    fs[jj]@,
                    out_new[k0 + 1],
                ));
            }
        } else {
            assert(out_new[p] == it);
            assert(0 <= p < out_new.len() && entry_from(scheme, base, fs[jj]@, out_new[p]));
        }
    }
}

proof fn lemma_scan_step_skip<S: SuffixScheme>(
    scheme: S,
    base: Seq<char>,
    fs: Seq<String>,
    j: int,
    out: Seq<SuffixInfo<S::Repr>>,
)
    requires
        0 <= j < fs.len(),
        !spec_scan_match(scheme, base, fs[j]@),
        scan_sound(scheme, base, fs, j, out),
        scan_complete(scheme, base, fs, j, out),
    ensures
        scan_sound(scheme, base, fs, j + 1, out),
        scan_complete(scheme, base, fs, j + 1, out),
{
    assert forall|k: int|
        #![trigger out[k]]
        0 <= k < out.len() implies exists|jj: int|
        #![trigger fs[jj]]
        0 <= jj < j + 1 && entry_from(scheme, base, fs[jj]@, out[k]) by {
        let jj = choose|jj: int|
            #![trigger fs[jj]]
            0 <= jj < j && entry_from(scheme, base, fs[jj]@, out[k]);
        assert(0 <= jj < j + 1 && entry_from(scheme, base, fs[jj]@, out[k]));
    }
}

/// Scans a directory listing for the rotated companions of `base_name`:
/// every file named `base_name`, a dot, and a suffix of the scheme (with an
/// optional compression mark) contributes one entry, nothing else does, and
/// the entries come out sorted from most recent to oldest.
pub fn scan_suffixes<S: SuffixScheme>(
    scheme: &S,
    base_name: &str,
    filenames: &Vec<String>,
) -> (r: Vec<SuffixInfo<S::Repr>>)
    ensures
        sorted_suffixes(r@),
        scan_sound(*scheme, base_name@, filenames@, filenames@.len() as int, r@),
        scan_complete(*scheme, base_name@, filenames@, filenames@.len() as int, r@),
{
    let bn = base_name.unicode_len();
    let mut out: Vec<SuffixInfo<S::Repr>> = Vec::new();
    let mut j: usize = 0;
    while j < filenames.len()
        invariant
            j <= filenames@.len(),
            bn == base_name@.len(),
            sorted_suffixes(out@),
            scan_sound(*scheme, base_name@, filenames@, j as int, out@),
            scan_complete(*scheme, base_name@, filenames@, j as int, out@),
        decreases filenames@.len() - j,
    {
        let ghost out_prev = out@;
        let ghost fs = filenames@;
        let name: &String = &filenames[j];
        let (stem_full, compressed) = prepare_filename(name.as_str());
        let ghost g_stem = gz_split(name@).0;
        let sn = stem_full.unicode_len();
        if sn > bn {
            let prefix = stem_full.substring_char(0, bn);
            if str_eq(prefix, base_name) && stem_full.get_char(bn) == '.' {
                let stem = stem_full.substring_char(bn + 1, sn);
                proof {
                    assert(stem@ =~= g_stem.skip(bn + 1));
                }
                match scheme.parse(stem) {
                    Some(rep) => {
                        let info = SuffixInfo { suffix: rep, compressed };
                        let ghost it = info;
                        insert_sorted(&mut out, info);
                        proof {
                            reveal(spec_scan_match);
                            reveal(entry_from);
                            assert(g_stem.take(bn as int) =~= prefix@);
                            assert(entry_from(*scheme, base_name@, fs[j as int]@, it));
                            let p = choose|p: int|
                                0 <= p <= out_prev.len() && out@ == out_prev.insert(p, it);
                            lemma_scan_step_insert(
                                *scheme,
                                base_name@,
                                fs,
                                j as int,
                                out_prev,
                                out@,
                                it,
                                p,
                            );
                        }
                    },
                    None => {
                        proof {
                            reveal(spec_scan_match);
                            assert(g_stem.take(bn as int) =~= prefix@);
                            assert(!spec_scan_match(*scheme, base_name@, fs[j as int]@));
                            lemma_scan_step_skip(*scheme, base_name@, fs, j as int, out@);
                        }
                    },
                }
            } else {
                proof {
                    reveal(spec_scan_match);
                    assert(g_stem.take(bn as int) =~= prefix@);
                    assert(!spec_scan_match(*scheme, base_name@, fs[j as int]@));
                    lemma_scan_step_skip(*scheme, base_name@, fs, j as int, out@);
                }
            }
        } else {
            proof {
                reveal(spec_scan_match);
                assert(!spec_scan_match(*scheme, base_name@, fs[j as int]@));
                lemma_scan_step_skip(*scheme, base_name@, fs, j as int, out@);
            }
        }
        j = j + 1;
    }
    out
}

} // verus!
