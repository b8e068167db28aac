use vstd::prelude::*;

verus! {

// ---------------------------------------------------------------------------
// Splitting a character sequence on a separator
// ---------------------------------------------------------------------------

/// All the pieces of `s` between occurrences of `sep`, in order. A sequence
/// with no separator yields one piece; every separator adds one more, so the
/// result is never empty and empty pieces are kept.
pub open spec fn split_on(s: Seq<char>, sep: char) -> Seq<Seq<char>>
    decreases s.len(),
{
    if s.len() == 0 {
        seq![Seq::<char>::empty()]
    } else if s[0] == sep {
        seq![Seq::<char>::empty()] + split_on(s.skip(1), sep)
    } else {
        let rest = split_on(s.skip(1), sep);
        seq![seq![s[0]] + rest[0]] + rest.skip(1)
    }
}

pub proof fn lemma_split_on_len(s: Seq<char>, sep: char)
    ensures
        split_on(s, sep).len() >= 1,
    decreases s.len(),
{
    if s.len() > 0 {
        lemma_split_on_len(s.skip(1), sep);
    }
}

/// Appending the separator to the text appends one empty piece.
proof fn lemma_split_on_push_sep(s: Seq<char>, sep: char)
    ensures
        split_on(s.push(sep), sep) =~~= split_on(s, sep) + seq![Seq::<char>::empty()],
    decreases s.len(),
{
    let t = s.push(sep);
    lemma_split_on_len(s, sep);
    assert(t.len() == s.len() + 1);
    if s.len() == 0 {
        assert(t[0] == sep);
        assert(t.skip(1) =~= Seq::<char>::empty());
        assert(split_on(t, sep) =~~= seq![Seq::<char>::empty()] + split_on(
            Seq::<char>::empty(),
            sep,
        ));
        assert(split_on(t, sep) =~~= split_on(s, sep) + seq![Seq::<char>::empty()]);
    } else {
        assert(t[0] == s[0]);
        assert(t.skip(1) =~= s.skip(1).push(sep));
        lemma_split_on_push_sep(s.skip(1), sep);
        lemma_split_on_len(s.skip(1), sep);
        let rest = split_on(s.skip(1), sep);
        let rest2 = split_on(t.skip(1), sep);
        assert(rest2 =~~= rest + seq![Seq::<char>::empty()]);
        if s[0] == sep {
            assert(split_on(t, sep) =~~= seq![Seq::<char>::empty()] + rest2);
            assert(split_on(s, sep) =~~= seq![Seq::<char>::empty()] + rest);
            assert(split_on(t, sep) =~~= split_on(s, sep) + seq![Seq::<char>::empty()]);
        } else {
            assert(rest2[0] == rest[0]);
            assert(rest2.skip(1) =~~= rest.skip(1) + seq![Seq::<char>::empty()]);
            assert(split_on(t, sep) =~~= seq![seq![s[0]] + rest[0]] + rest2.skip(1));
            assert(split_on(s, sep) =~~= seq![seq![s[0]] + rest[0]] + rest.skip(1));
            assert(split_on(t, sep) =~~= split_on(s, sep) + seq![Seq::<char>::empty()]);
        }
    }
}

/// Appending any other character extends the final piece.
proof fn lemma_split_on_push_other(s: Seq<char>, sep: char, c: char)
    requires
        c != sep,
    ensures
        ({
            let p = split_on(s, sep);
            split_on(s.push(c), sep) =~~= p.update(p.len() - 1, p.last().push(c))
        }),
    decreases s.len(),
{
    let t = s.push(c);
    lemma_split_on_len(s, sep);
    assert(t.len() == s.len() + 1);
    if s.len() == 0 {
        assert(t[0] == c);
        assert(t.skip(1) =~= Seq::<char>::empty());
        assert(split_on(t, sep) =~~= seq![seq![c] + split_on(Seq::<char>::empty(), sep)[0]]
            + split_on(Seq::<char>::empty(), sep).skip(1));
        assert(split_on(t, sep) =~~= seq![seq![c]]);
        assert(split_on(s, sep).update(0, Seq::<char>::empty().push(c)) =~~= seq![seq![c]]);
    } else {
        assert(t[0] == s[0]);
        assert(t.skip(1) =~= s.skip(1).push(c));
        lemma_split_on_push_other(s.skip(1), sep, c);
        lemma_split_on_len(s.skip(1), sep);
        let p = split_on(s, sep);
        let rest = split_on(s.skip(1), sep);
        let rest2 = split_on(t.skip(1), sep);
        assert(rest2 =~~= rest.update(rest.len() - 1, rest.last().push(c)));
        if s[0] == sep {
            assert(p =~~= seq![Seq::<char>::empty()] + rest);
            assert(p.last() == rest.last());
            assert(split_on(t, sep) =~~= seq![Seq::<char>::empty()] + rest2);
            assert(split_on(t, sep) =~~= p.update(p.len() - 1, p.last().push(c)));
        } else {
            assert(p =~~= seq![seq![s[0]] + rest[0]] + rest.skip(1));
            assert(split_on(t, sep) =~~= seq![seq![s[0]] + rest2[0]] + rest2.skip(1));
            if rest.len() == 1 {
                assert(rest2[0] == rest[0].push(c));
                assert(p.last() == seq![s[0]] + rest[0]);
                assert(seq![s[0]] + rest[0].push(c) =~= (seq![s[0]] + rest[0]).push(c));
                assert(split_on(t, sep) =~~= p.update(p.len() - 1, p.last().push(c)));
            } else {
                assert(rest2[0] == rest[0]);
                assert(rest2.skip(1) =~~= rest.skip(1).update(rest.skip(1).len() - 1,
                    rest.skip(1).last().push(c)));
                assert(p.last() == rest.last());
                assert(split_on(t, sep) =~~= p.update(p.len() - 1, p.last().push(c)));
            }
        }
    }
}

/// Splits `s` at every occurrence of `sep`, keeping empty pieces.
pub fn split_str(s: &str, sep: char) -> (r: Vec<String>)
    ensures
        r.deep_view() == split_on(s@, sep),
{
    let n = s.unicode_len();
    let mut r: Vec<String> = Vec::new();
    let mut start: usize = 0;
    let mut i: usize = 0;
    proof {
        assert(s@.take(0) =~= Seq::<char>::empty());
        assert(r.deep_view().push(s@.subrange(0, 0)) =~~= seq![Seq::<char>::empty()]);
    }
    while i < n
        invariant
            start <= i <= n,
            n == s@.len(),
            r.deep_view().push(s@.subrange(start as int, i as int)) =~~= split_on(
                s@.take(i as int),
                sep,
            ),
        decreases n - i,
    {
        let ghost prev = r.deep_view();
        let ghost part = s@.subrange(start as int, i as int);
        let c = s.get_char(i);
        proof {
            assert(s@.take(i + 1) =~= s@.take(i as int).push(s@[i as int]));
        }
        if c == sep {
            let piece = s.substring_char(start, i).to_owned();
            r.push(piece);
            proof {
                lemma_split_on_push_sep(s@.take(i as int), sep);
                assert(r.deep_view() =~~= prev.push(part));
                assert(r.deep_view().push(s@.subrange(i + 1, i + 1)) =~~= split_on(
                    s@.take(i + 1),
                    sep,
                ));
            }
            start = i + 1;
        } else {
            proof {
                lemma_split_on_push_other(s@.take(i as int), sep, c);
                let p = split_on(s@.take(i as int), sep);
                assert(p == prev.push(part));
                assert(p.update(p.len() - 1, p.last().push(c)) =~~= prev.push(part.push(c)));
                assert(s@.subrange(start as int, i + 1) =~= part.push(c));
            }
        }
        i = i + 1;
    }
    let piece = s.substring_char(start, n).to_owned();
    r.push(piece);
    proof {
        assert(s@.take(n as int) =~= s@);
        assert(r.deep_view() =~~= split_on(s@, sep));
    }
    r
}

// ---------------------------------------------------------------------------
// Line cleanup: strip carriage returns, drop blank lines
// ---------------------------------------------------------------------------

/// A line as the table reader sees it: a trailing carriage return (from CRLF
/// line endings) is not part of the content.
pub open spec fn strip_cr(line: Seq<char>) -> Seq<char> {
    if line.len() > 0 && line.last() == '\r' {
        line.drop_last()
    } else {
        line
    }
}

/// The lines that carry content: each raw line with its carriage return
/// stripped, blank lines omitted.
pub open spec fn nonblank_rows(lines: Seq<Seq<char>>) -> Seq<Seq<char>>
    decreases lines.len(),
{
    if lines.len() == 0 {
        Seq::empty()
    } else {
        let h = strip_cr(lines[0]);
        (if h.len() == 0 {
            Seq::<Seq<char>>::empty()
        } else {
            seq![h]
        }) + nonblank_rows(lines.skip(1))
    }
}

proof fn lemma_nonblank_rows_push(lines: Seq<Seq<char>>, x: Seq<char>)
    ensures
        nonblank_rows(lines.push(x)) =~~= nonblank_rows(lines) + (if strip_cr(x).len() == 0 {
            Seq::<Seq<char>>::empty()
        } else {
            seq![strip_cr(x)]
        }),
    decreases lines.len(),
{
    let t = lines.push(x);
    assert(t.len() == lines.len() + 1);
    if lines.len() == 0 {
        assert(t[0] == x);
        assert(t.skip(1) =~~= Seq::<Seq<char>>::empty());
        assert(nonblank_rows(t.skip(1)) =~~= Seq::<Seq<char>>::empty());
        assert(nonblank_rows(t) =~~= nonblank_rows(lines) + (if strip_cr(x).len() == 0 {
            Seq::<Seq<char>>::empty()
        } else {
            seq![strip_cr(x)]
        }));
    } else {
        assert(t[0] == lines[0]);
        assert(t.skip(1) =~~= lines.skip(1).push(x));
        lemma_nonblank_rows_push(lines.skip(1), x);
        assert(nonblank_rows(t) =~~= nonblank_rows(lines) + (if strip_cr(x).len() == 0 {
            Seq::<Seq<char>>::empty()
        } else {
            seq![strip_cr(x)]
        }));
    }
}

/// Cleans raw lines into content rows: strips a trailing carriage return from
/// each and drops the lines that are then empty.
pub fn clean_rows(lines: &Vec<String>) -> (r: Vec<String>)
    ensures
        r.deep_view() == nonblank_rows(lines.deep_view()),
{
    let mut r: Vec<String> = Vec::new();
    let mut i: usize = 0;
    proof {
        assert(lines.deep_view().take(0) =~~= Seq::<Seq<char>>::empty());
    }
    while i < lines.len()
        invariant
            i <= lines.len(),
            r.deep_view() =~~= nonblank_rows(lines.deep_view().take(i as int)),
        decreases lines.len() - i,
    {
        let ghost prev = r.deep_view();
        let line: &String = &lines[i];
        let len = line.as_str().unicode_len();
        let stripped: String = if len > 0 && line.as_str().get_char(len - 1) == '\r' {
            proof {
                assert(line@.subrange(0, line@.len() - 1) =~= line@.drop_last());
            }
            line.as_str().substring_char(0, len - 1).to_owned()
        } else {
            line.clone()
        };
        assert(stripped@ == strip_cr(lines.deep_view()[i as int]));
        if stripped.as_str().unicode_len() > 0 {
            r.push(stripped);
            proof {
                assert(r.deep_view() =~~= prev.push(strip_cr(lines.deep_view()[i as int])));
            }
        }
        proof {
            lemma_nonblank_rows_push(lines.deep_view().take(i as int), lines.deep_view()[i as int]);
            assert(lines.deep_view().take(i + 1) =~~= lines.deep_view().take(i as int).push(
                lines.deep_view()[i as int],
            ));
            assert(r.deep_view() =~~= nonblank_rows(lines.deep_view().take(i + 1)));
        }
        i = i + 1;
    }
    proof {
        assert(lines.deep_view().take(lines.deep_view().len() as int) =~~= lines.deep_view());
    }
    r
}

// ---------------------------------------------------------------------------
// First occurrence of a character
// ---------------------------------------------------------------------------

/// Position of the first occurrence of `c` in `s`, if any.
pub open spec fn find_char(s: Seq<char>, c: char) -> Option<int>
    decreases s.len(),
{
    if s.len() == 0 {
        None
    } else if s[0] == c {
        Some(0)
    } else {
        match find_char(s.skip(1), c) {
            None => None,
            Some(i) => Some(i + 1),
        }
    }
}

pub proof fn lemma_find_char(s: Seq<char>, c: char)
    ensures
        match find_char(s, c) {
            Some(i) => 0 <= i < s.len() && s[i] == c && forall|j: int| 0 <= j < i ==> s[j] != c,
            None => forall|j: int| 0 <= j < s.len() ==> s[j] != c,
        },
    decreases s.len(),
{
    if s.len() > 0 && s[0] != c {
        lemma_find_char(s.skip(1), c);
        assert(forall|j: int| 1 <= j < s.len() ==> (#[trigger] s[j]) == s.skip(1)[j - 1]);
    }
}

/// Finds the first occurrence of `c` in `s`.
pub fn find_char_str(s: &str, c: char) -> (r: Option<usize>)
    ensures
        match r {
            Some(i) => find_char(s@, c) == Some(i as int),
            None => find_char(s@, c) is None,
        },
{
    let n = s.unicode_len();
    let mut i: usize = 0;
    while i < n
        invariant
            i <= n,
            n == s@.len(),
            forall|j: int| 0 <= j < i ==> s@[j] != c,
        decreases n - i,
    {
        if s.get_char(i) == c {
            proof {
                lemma_find_char(s@, c);
                match find_char(s@, c) {
                    Some(x) => {
                        if x < i {
                            assert(s@[x] == c);
                        }
                        if x > i {
                            assert(s@[i as int] != c);
                        }
                    },
                    None => {
                        assert(s@[i as int] != c);
                    },
                }
            }
            return Some(i);
        }
        i = i + 1;
    }
    proof {
        lemma_find_char(s@, c);
        if find_char(s@, c) is Some {
            let x = find_char(s@, c)->0;
            assert(s@[x] == c);
        }
    }
    None
}

// ---------------------------------------------------------------------------
// Character-wise string equality
// ---------------------------------------------------------------------------

/// Character-by-character equality of two string slices.
pub fn str_eq(a: &str, b: &str) -> (r: bool)
    ensures
        r == (a@ == b@),
{
    let na = a.unicode_len();
    let nb = b.unicode_len();
    if na != nb {
        return false;
    }
    let mut i: usize = 0;
    while i < na
        invariant
            i <= na,
            na == a@.len(),
            na == b@.len(),
            forall|j: int| 0 <= j < i ==> a@[j] == b@[j],
        decreases na - i,
    {
        if a.get_char(i) != b.get_char(i) {
            return false;
        }
        i = i + 1;
    }
    proof {
        assert(a@ =~= b@);
    }
    true
}

// ---------------------------------------------------------------------------
// Lexicographic order on character sequences
// ---------------------------------------------------------------------------

/// Strict lexicographic order by character code point.
pub open spec fn lex_lt(a: Seq<char>, b: Seq<char>) -> bool
    decreases a.len(),
{
    if b.len() == 0 {
        false
    } else if a.len() == 0 {
        true
    } else if (a[0] as int) < (b[0] as int) {
        true
    } else if a[0] == b[0] {
        lex_lt(a.skip(1), b.skip(1))
    } else {
        false
    }
}

proof fn lemma_lex_lt_skip_common(a: Seq<char>, b: Seq<char>, i: int)
    requires
        0 <= i <= a.len(),
        i <= b.len(),
        forall|j: int| 0 <= j < i ==> a[j] == b[j],
    ensures
        lex_lt(a, b) == lex_lt(a.skip(i), b.skip(i)),
    decreases i,
{
    if i > 0 {
        assert(a.len() > 0 && b.len() > 0 && a[0] == b[0]);
        assert(lex_lt(a, b) == lex_lt(a.skip(1), b.skip(1)));
        assert(a.skip(1).skip(i - 1) =~= a.skip(i));
        assert(b.skip(1).skip(i - 1) =~= b.skip(i));
        assert(forall|j: int| 0 <= j < i - 1 ==> a.skip(1)[j] == a[j + 1] && b.skip(1)[j] == b[j
            + 1]);
        lemma_lex_lt_skip_common(a.skip(1), b.skip(1), i - 1);
    } else {
        assert(a.skip(0) =~= a);
        assert(b.skip(0) =~= b);
    }
}

/// The order is total: two sequences compare one way, the other way, or are
/// equal.
pub proof fn lemma_lex_lt_trichotomy(a: Seq<char>, b: Seq<char>)
    ensures
        lex_lt(a, b) || lex_lt(b, a) || a == b,
    decreases a.len(),
{
    if a.len() == 0 && b.len() == 0 {
        assert(a =~= b);
    } else if a.len() > 0 && b.len() > 0 {
        if a[0] == b[0] {
            lemma_lex_lt_trichotomy(a.skip(1), b.skip(1));
            if a.skip(1) == b.skip(1) {
                assert(a.skip(1).len() == a.len() - 1);
                assert(b.skip(1).len() == b.len() - 1);
                assert(a.len() == b.len());
                assert(forall|j: int| 1 <= j < a.len() ==> (#[trigger] a[j]) == a.skip(1)[j - 1]);
                assert(forall|j: int| 1 <= j < b.len() ==> (#[trigger] b[j]) == b.skip(1)[j - 1]);
                assert(a =~= b);
            }
        } else {
            assert((a[0] as int) != (b[0] as int));
        }
    }
}

/// The order is transitive.
pub proof fn lemma_lex_lt_trans(a: Seq<char>, b: Seq<char>, c: Seq<char>)
    requires
        lex_lt(a, b),
        lex_lt(b, c),
    ensures
        lex_lt(a, c),
    decreases a.len(),
{
    if a.len() > 0 {
        if a[0] == b[0] && b[0] == c[0] {
            lemma_lex_lt_trans(a.skip(1), b.skip(1), c.skip(1));
        }
    }
}

/// Whether `a` comes strictly before `b` in lexicographic order by code point.
pub fn str_lt(a: &str, b: &str) -> (r: bool)
    ensures
        r == lex_lt(a@, b@),
{
    let na = a.unicode_len();
    let nb = b.unicode_len();
    let mut i: usize = 0;
    loop
        invariant
            i <= na,
            i <= nb,
            na == a@.len(),
            nb == b@.len(),
            forall|j: int| 0 <= j < i ==> a@[j] == b@[j],
        decreases na - i,
    {
        proof {
            lemma_lex_lt_skip_common(a@, b@, i as int);
        }
        if i >= nb {
            return false;
        }
        if i >= na {
            return true;
        }
        let ca = a.get_char(i);
        let cb = b.get_char(i);
        proof {
            assert(ca as u32 == ca as int);
            assert(cb as u32 == cb as int);
        }
        if (ca as u32) < (cb as u32) {
            return true;
        }
        if ca != cb {
            return false;
        }
        i = i + 1;
    }
}

// ---------------------------------------------------------------------------
// Decimal numbers: parsing and printing
// ---------------------------------------------------------------------------

pub open spec fn is_digit(c: char) -> bool {
    48 <= (c as u32) <= 57
}

pub open spec fn all_digits(s: Seq<char>) -> bool {
    forall|i: int| 0 <= i < s.len() ==> is_digit(s[i])
}

/// Numeric value of a digit string, most significant digit first.
pub open spec fn digits_val(s: Seq<char>) -> int
    decreases s.len(),
{
    if s.len() == 0 {
        0
    } else {
        digits_val(s.drop_last()) * 10 + (s.last() as u32) - 48
    }
}

/// The part of a number literal holding the digits: a single leading `+` sign
/// is allowed, as the standard library's integer parser accepts one.
pub open spec fn number_body(s: Seq<char>) -> Seq<char> {
    if s.len() > 0 && s[0] == '+' {
        s.skip(1)
    } else {
        s
    }
}

/// Whether `s` is a decimal literal whose value fits in `usize`.
pub open spec fn parses_as_usize(s: Seq<char>) -> bool {
    let body = number_body(s);
    body.len() > 0 && all_digits(body) && digits_val(body) <= usize::MAX
}

proof fn lemma_digits_val_nonneg(s: Seq<char>)
    requires
        all_digits(s),
    ensures
        digits_val(s) >= 0,
    decreases s.len(),
{
    if s.len() > 0 {
        assert(all_digits(s.drop_last()));
        lemma_digits_val_nonneg(s.drop_last());
    }
}

proof fn lemma_digits_val_prefix_le(s: Seq<char>, i: int)
    requires
        all_digits(s),
        0 <= i <= s.len(),
    ensures
        digits_val(s.take(i)) <= digits_val(s),
    decreases s.len() - i,
{
    if i < s.len() {
        let t = s.take(i + 1);
        assert(t.drop_last() =~= s.take(i));
        assert(all_digits(s.take(i)));
        lemma_digits_val_nonneg(s.take(i));
        assert(digits_val(t) == digits_val(s.take(i)) * 10 + (s[i] as u32) - 48);
        lemma_digits_val_prefix_le(s, i + 1);
        assert(s.take(s.len() as int) =~= s);
    } else {
        assert(s.take(i) =~= s);
    }
}

/// Parses a decimal literal (optionally `+`-signed) into a `usize`, rejecting
/// anything else and values that do not fit.
pub fn parse_usize(s: &str) -> (r: Option<usize>)
    ensures
        r is Some <==> parses_as_usize(s@),
        r is Some ==> r->0 == digits_val(number_body(s@)),
{
    let n = s.unicode_len();
    let mut i: usize = 0;
    if n > 0 && s.get_char(0) == '+' {
        i = 1;
    }
    let ghost body = number_body(s@);
    proof {
        assert(body =~= s@.skip(i as int));
    }
    if i >= n {
        return None;
    }
    let start = i;
    let mut acc: usize = 0;
    while i < n
        invariant
            start <= i <= n,
            n == s@.len(),
            start <= 1,
            body == number_body(s@),
            body == s@.skip(start as int),
            forall|j: int| start <= j < i ==> is_digit(s@[j]),
            all_digits(body.take(i - start)),
            acc == digits_val(body.take(i - start)),
        decreases n - i,
    {
        let c = s.get_char(i);
        let cv = c as u32;
        if cv < 48 || cv > 57 {
            proof {
                assert(body[i - start] == s@[i as int]);
                assert(!all_digits(body));
            }
            return None;
        }
        let d = (cv - 48) as usize;
        let ghost pre = body.take(i - start);
        proof {
            assert(body.take(i + 1 - start).drop_last() =~= pre);
            assert(body.take(i + 1 - start).last() == s@[i as int]);
        }
        let step = match acc.checked_mul(10) {
            Some(m) => m.checked_add(d),
            None => None,
        };
        match step {
            Some(v) => {
                acc = v;
            },
            None => {
                proof {
                    assert(body[i - start] == s@[i as int]);
                    assert(forall|j: int| 0 <= j < i + 1 - start ==> body[j] == s@[j + start]);
                    assert(all_digits(body.take(i + 1 - start)));
                    if all_digits(body) {
                        lemma_digits_val_prefix_le(body, i + 1 - start);
                    }
                }
                return None;
            },
        }
        i = i + 1;
    }
    proof {
        assert(body.take(n - start) =~= body);
    }
    Some(acc)
}

/// The decimal digit characters of `n`, most significant first.
pub open spec fn dec_str(n: int) -> Seq<char>
    decreases n,
{
    if n < 10 {
        seq![digit_char(n)]
    } else {
        dec_str(n / 10).push(digit_char(n % 10))
    }
}

pub open spec fn digit_char(d: int) -> char {
    if d == 0 {
        '0'
    } else if d == 1 {
        '1'
    } else if d == 2 {
        '2'
    } else if d == 3 {
        '3'
    } else if d == 4 {
        '4'
    } else if d == 5 {
        '5'
    } else if d == 6 {
        '6'
    } else if d == 7 {
        '7'
    } else if d == 8 {
        '8'
    } else {
        '9'
    }
}

fn digit_str(d: usize) -> (r: &'static str)
    requires
        d < 10,
    ensures
        r@ =~= seq![digit_char(d as int)],
{
    proof {
        reveal_strlit("0");
        reveal_strlit("1");
        reveal_strlit("2");
        reveal_strlit("3");
        reveal_strlit("4");
        reveal_strlit("5");
        reveal_strlit("6");
        reveal_strlit("7");
        reveal_strlit("8");
        reveal_strlit("9");
    }
    match d {
        0 => "0",
        1 => "1",
        2 => "2",
        3 => "3",
        4 => "4",
        5 => "5",
        6 => "6",
        7 => "7",
        8 => "8",
        _ => "9",
    }
}

/// Renders `n` in decimal, most significant digit first.
pub fn usize_to_string(n: usize) -> (r: String)
    ensures
        r@ == dec_str(n as int),
    decreases n,
{
    if n < 10 {
        digit_str(n).to_owned()
    } else {
        let mut s = usize_to_string(n / 10);
        s.append(digit_str(n % 10));
        proof {
            assert(dec_str(n as int) =~= dec_str(n as int / 10) + seq![
                digit_char(n as int % 10),
            ]);
        }
        s
    }
}

} // verus!
