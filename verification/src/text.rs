//! Character-level text primitives shared by the parsers and post-passes.
//!
//! Text is modelled as a `Seq<char>` (the view of `str`/`String`); the
//! executable helpers work on `Vec<char>` copies of it.
use vstd::prelude::*;

verus! {

/// Unicode `White_Space` property, as used by `char::is_whitespace`.
pub open spec fn is_ws(c: char) -> bool {
    let u = c as u32;
    ||| (0x09 <= u && u <= 0x0D)
    ||| u == 0x20
    ||| u == 0x85
    ||| u == 0xA0
    ||| u == 0x1680
    ||| (0x2000 <= u && u <= 0x200A)
    ||| u == 0x2028
    ||| u == 0x2029
    ||| u == 0x202F
    ||| u == 0x205F
    ||| u == 0x3000
}

/// Executable `is_ws`.
pub fn is_whitespace(c: char) -> (r: bool)
    ensures
        r == is_ws(c),
{
    let u = c as u32;
    (0x09 <= u && u <= 0x0D) || u == 0x20 || u == 0x85 || u == 0xA0 || u == 0x1680 || (0x2000
        <= u && u <= 0x200A) || u == 0x2028 || u == 0x2029 || u == 0x202F || u == 0x205F || u
        == 0x3000
}

pub open spec fn is_ascii_digit(c: char) -> bool {
    '0' <= c && c <= '9'
}

/// All characters of `s` are ASCII digits.
pub open spec fn all_digits(s: Seq<char>) -> bool {
    forall|i: int| 0 <= i < s.len() ==> is_ascii_digit(#[trigger] s[i])
}

/// `s` with its leading white space removed (`str::trim_start`).
pub open spec fn trim_start(s: Seq<char>) -> Seq<char>
    decreases s.len(),
{
    if s.len() > 0 && is_ws(s[0]) {
        trim_start(s.drop_first())
    } else {
        s
    }
}

/// `s` with its trailing white space removed (`str::trim_end`).
pub open spec fn trim_end(s: Seq<char>) -> Seq<char>
    decreases s.len(),
{
    if s.len() > 0 && is_ws(s.last()) {
        trim_end(s.drop_last())
    } else {
        s
    }
}

/// `str::trim`.
pub open spec fn trim(s: Seq<char>) -> Seq<char> {
    trim_end(trim_start(s))
}

/// `s` starts with `p`.
pub open spec fn starts_with(s: Seq<char>, p: Seq<char>) -> bool {
    p.len() <= s.len() && s.take(p.len() as int) == p
}

/// `s` ends with `p`.
pub open spec fn ends_with(s: Seq<char>, p: Seq<char>) -> bool {
    p.len() <= s.len() && s.skip(s.len() - p.len()) == p
}

/// The character `c` lower-cases (`char::to_lowercase`) to exactly the one
/// character `d`, where `d` is a lower-case ASCII letter, digit, space or
/// ASCII punctuation. Besides `d` itself and the upper-case ASCII letter, the
/// only other such character is the Kelvin sign, which lower-cases to `k`.
pub open spec fn lowers_to(c: char, d: char) -> bool {
    ||| c == d
    ||| ('A' <= c && c <= 'Z' && c as u32 + 32 == d as u32)
    ||| (c == '\u{212A}' && d == 'k')
}

/// `s.to_lowercase() == lit` for a literal `lit` made of lower-case ASCII.
pub open spec fn lower_is(s: Seq<char>, lit: Seq<char>) -> bool {
    s.len() == lit.len() && forall|i: int| 0 <= i < s.len() ==> lowers_to(#[trigger] s[i], lit[i])
}

/// `s.to_lowercase().starts_with(lit)` for a literal `lit` made of
/// lower-case ASCII.
pub open spec fn lower_starts_with(s: Seq<char>, lit: Seq<char>) -> bool {
    lit.len() <= s.len() && lower_is(s.take(lit.len() as int), lit)
}

/// `char::to_lowercase` applied to each character, for the characters that
/// have a single-character ASCII lower case (all others are kept).
pub fn lowers_to_exec(c: char, d: char) -> (r: bool)
    ensures
        r == lowers_to(c, d),
{
    c == d || ('A' <= c && c <= 'Z' && c as u32 + 32 == d as u32) || (c == '\u{212A}' && d == 'k')
}

/// `String::push`: appends the character to the end of the string, as its
/// documentation says.
pub assume_specification[ String::push ](s: &mut String, ch: char)
    ensures
        final(s)@ == old(s)@.push(ch),
;

/// Copies the characters of a string slice into a vector.
pub(crate) fn chars_of(s: &str) -> (v: Vec<char>)
    ensures
        v@ == s@,
{
    broadcast use vstd::string::axiom_spec_iter;
    let mut v: Vec<char> = Vec::new();
    for c in it: s.chars()
        invariant
            it.seq() == s@,
            v@ == s@.take(it.index() as int),
    {
        v.push(c);
        assert(v@ =~= s@.take(it.index() as int + 1));
    }
    assert(s@.take(s@.len() as int) =~= s@);
    v
}

/// Builds a `String` from characters.
pub(crate) fn string_of(v: &Vec<char>) -> (s: String)
    ensures
        s@ == v@,
{
    let mut s = String::new();
    let mut i: usize = 0;
    while i < v.len()
        invariant
            i <= v.len(),
            s@ == v@.take(i as int),
        decreases v.len() - i,
    {
        s.push(v[i]);
        i += 1;
        assert(s@ =~= v@.take(i as int));
    }
    assert(v@.take(v.len() as int) =~= v@);
    s
}

/// Copies `s[lo..hi]`.
pub fn slice_chars(s: &Vec<char>, lo: usize, hi: usize) -> (r: Vec<char>)
    requires
        lo <= hi <= s.len(),
    ensures
        r@ == s@.subrange(lo as int, hi as int),
{
    let mut r: Vec<char> = Vec::new();
    let mut i = lo;
    while i < hi
        invariant
            lo <= i <= hi <= s.len(),
            r@ == s@.subrange(lo as int, i as int),
        decreases hi - i,
    {
        r.push(s[i]);
        i += 1;
        assert(r@ =~= s@.subrange(lo as int, i as int));
    }
    r
}

proof fn lemma_trim_start_index(s: Seq<char>, i: int)
    requires
        0 <= i <= s.len(),
        forall|j: int| 0 <= j < i ==> is_ws(#[trigger] s[j]),
        i == s.len() || !is_ws(s[i]),
    ensures
        trim_start(s) == s.subrange(i, s.len() as int),
    decreases i,
{
    if i == 0 {
        assert(s.subrange(0, s.len() as int) =~= s);
    } else {
        assert(is_ws(s[0]));
        let t = s.drop_first();
        assert forall|j: int| 0 <= j < i - 1 implies is_ws(#[trigger] t[j]) by {
            assert(t[j] == s[j + 1]);
        }
        lemma_trim_start_index(t, i - 1);
        assert(t.subrange(i - 1, t.len() as int) =~= s.subrange(i, s.len() as int));
    }
}

proof fn lemma_trim_end_index(s: Seq<char>, k: int)
    requires
        0 <= k <= s.len(),
        forall|j: int| k <= j < s.len() ==> is_ws(#[trigger] s[j]),
        k == 0 || !is_ws(s[k - 1]),
    ensures
        trim_end(s) == s.subrange(0, k),
    decreases s.len() - k,
{
    if k == s.len() {
        assert(s.subrange(0, k) =~= s);
    } else {
        assert(is_ws(s.last()));
        let t = s.drop_last();
        assert forall|j: int| k <= j < t.len() implies is_ws(#[trigger] t[j]) by {
            assert(t[j] == s[j]);
        }
        lemma_trim_end_index(t, k);
        assert(t.subrange(0, k) =~= s.subrange(0, k));
    }
}

/// Bounds `(lo, hi)` of `trim(s)` inside `s`.
pub fn trim_bounds(s: &Vec<char>) -> (r: (usize, usize))
    ensures
        r.0 <= r.1 <= s.len(),
        trim(s@) == s@.subrange(r.0 as int, r.1 as int),
        trim_start(s@) == s@.subrange(r.0 as int, s.len() as int),
{
    let mut lo: usize = 0;
    while lo < s.len() && is_whitespace(s[lo])
        invariant
            lo <= s.len(),
            forall|j: int| 0 <= j < lo ==> is_ws(#[trigger] s@[j]),
        decreases s.len() - lo,
    {
        lo += 1;
    }
    proof {
        lemma_trim_start_index(s@, lo as int);
    }
    let mut hi: usize = s.len();
    while hi > lo && is_whitespace(s[hi - 1])
        invariant
            lo <= hi <= s.len(),
            forall|j: int| hi <= j < s.len() ==> is_ws(#[trigger] s@[j]),
        decreases hi - lo,
    {
        hi -= 1;
    }
    proof {
        let t = s@.subrange(lo as int, s.len() as int);
        assert forall|j: int| hi - lo <= j < t.len() implies is_ws(#[trigger] t[j]) by {
            assert(t[j] == s@[j + lo]);
        }
        if hi > lo {
            assert(t[hi - lo - 1] == s@[hi - 1]);
        }
        lemma_trim_end_index(t, hi - lo);
        assert(t.subrange(0, hi - lo) =~= s@.subrange(lo as int, hi as int));
    }
    (lo, hi)
}

/// `str::trim` on characters.
pub fn trim_chars(s: &Vec<char>) -> (r: Vec<char>)
    ensures
        r@ == trim(s@),
{
    let (lo, hi) = trim_bounds(s);
    slice_chars(s, lo, hi)
}

/// `s.starts_with(p)`.
pub fn starts_with_exec(s: &Vec<char>, p: &Vec<char>) -> (r: bool)
    ensures
        r == starts_with(s@, p@),
{
    if p.len() > s.len() {
        return false;
    }
    let mut i: usize = 0;
    while i < p.len()
        invariant
            p.len() <= s.len(),
            i <= p.len(),
            forall|j: int| 0 <= j < i ==> s@[j] == p@[j],
        decreases p.len() - i,
    {
        if s[i] != p[i] {
            assert(s@.take(p.len() as int)[i as int] != p@[i as int]);
            return false;
        }
        i += 1;
    }
    assert(s@.take(p.len() as int) =~= p@);
    true
}

/// `s.ends_with(p)`.
pub fn ends_with_exec(s: &Vec<char>, p: &Vec<char>) -> (r: bool)
    ensures
        r == ends_with(s@, p@),
{
    if p.len() > s.len() {
        return false;
    }
    let off = s.len() - p.len();
    let mut i: usize = 0;
    while i < p.len()
        invariant
            p.len() <= s.len(),
            off == s.len() - p.len(),
            i <= p.len(),
            forall|j: int| 0 <= j < i ==> s@[off + j] == p@[j],
        decreases p.len() - i,
    {
        if s[off + i] != p[i] {
            assert(s@.skip(off as int)[i as int] != p@[i as int]);
            return false;
        }
        i += 1;
    }
    assert(s@.skip(off as int) =~= p@);
    true
}

/// `s.to_lowercase().starts_with(lit)` for a lower-case ASCII literal.
pub fn lower_starts_with_exec(s: &Vec<char>, lit: &Vec<char>) -> (r: bool)
    ensures
        r == lower_starts_with(s@, lit@),
{
    if lit.len() > s.len() {
        return false;
    }
    let mut i: usize = 0;
    while i < lit.len()
        invariant
            lit.len() <= s.len(),
            i <= lit.len(),
            forall|j: int| 0 <= j < i ==> lowers_to(s@[j], lit@[j]),
        decreases lit.len() - i,
    {
        if !lowers_to_exec(s[i], lit[i]) {
            assert(s@.take(lit.len() as int)[i as int] == s@[i as int]);
            return false;
        }
        i += 1;
    }
    assert forall|j: int| 0 <= j < lit.len() implies lowers_to(
        #[trigger] s@.take(lit.len() as int)[j],
        lit@[j],
    ) by {
        assert(s@.take(lit.len() as int)[j] == s@[j]);
    }
    true
}

/// `s.to_lowercase() == lit` for a lower-case ASCII literal.
pub fn lower_is_exec(s: &Vec<char>, lit: &Vec<char>) -> (r: bool)
    ensures
        r == lower_is(s@, lit@),
{
    if s.len() != lit.len() {
        return false;
    }
    let b = lower_starts_with_exec(s, lit);
    assert(s@.take(lit.len() as int) =~= s@);
    b
}

/// All characters are ASCII digits.
pub fn all_digits_exec(s: &Vec<char>) -> (r: bool)
    ensures
        r == all_digits(s@),
{
    let mut i: usize = 0;
    while i < s.len()
        invariant
            i <= s.len(),
            forall|j: int| 0 <= j < i ==> is_ascii_digit(#[trigger] s@[j]),
        decreases s.len() - i,
    {
        if !('0' <= s[i] && s[i] <= '9') {
            return false;
        }
        i += 1;
    }
    true
}

// ──────────────────────────────────────────────────────────────────────────
// Lines (`str::lines`)
// ──────────────────────────────────────────────────────────────────────────

/// Index of the first `'\n'` in `s`, or `s.len()`.
pub open spec fn line_end(s: Seq<char>) -> int
    decreases s.len(),
{
    if s.len() == 0 || s[0] == '\n' {
        0
    } else {
        1 + line_end(s.drop_first())
    }
}

/// A `'\n'`-terminated line loses one trailing `'\r'`.
pub open spec fn strip_cr(l: Seq<char>) -> Seq<char> {
    if l.len() > 0 && l.last() == '\r' {
        l.drop_last()
    } else {
        l
    }
}

pub proof fn lemma_line_end_bounds(s: Seq<char>)
    ensures
        0 <= line_end(s) <= s.len(),
        line_end(s) < s.len() ==> s[line_end(s)] == '\n',
        forall|j: int| 0 <= j < line_end(s) ==> s[j] != '\n',
    decreases s.len(),
{
    if s.len() > 0 && s[0] != '\n' {
        lemma_line_end_bounds(s.drop_first());
        assert forall|j: int| 0 <= j < line_end(s) implies s[j] != '\n' by {
            if j > 0 {
                assert(s[j] == s.drop_first()[j - 1]);
            }
        }
    }
}

/// `str::lines`: split at `'\n'`, a `"\r\n"` ending counts as one line end,
/// and a final line end does not start an empty last line.
pub open spec fn lines(s: Seq<char>) -> Seq<Seq<char>>
    decreases s.len(),
{
    if s.len() == 0 {
        Seq::empty()
    } else {
        let k = line_end(s);
        proof {
            lemma_line_end_bounds(s);
        }
        if k < s.len() {
            seq![strip_cr(s.take(k))] + lines(s.skip(k + 1))
        } else {
            seq![s]
        }
    }
}

/// Views of a vector of character vectors.
pub open spec fn char_views(v: Seq<Vec<char>>) -> Seq<Seq<char>> {
    v.map_values(|x: Vec<char>| x@)
}

proof fn lemma_line_end_index(s: Seq<char>, k: int)
    requires
        0 <= k <= s.len(),
        forall|j: int| 0 <= j < k ==> s[j] != '\n',
        k == s.len() || s[k] == '\n',
    ensures
        line_end(s) == k,
    decreases k,
{
    if k > 0 {
        assert(s[0] != '\n');
        let t = s.drop_first();
        assert forall|j: int| 0 <= j < k - 1 implies t[j] != '\n' by {
            assert(t[j] == s[j + 1]);
        }
        lemma_line_end_index(t, k - 1);
    }
}

/// The lines of `s`.
pub fn lines_of(s: &Vec<char>) -> (r: Vec<Vec<char>>)
    ensures
        char_views(r@) == lines(s@),
{
    let mut out: Vec<Vec<char>> = Vec::new();
    let mut start: usize = 0;
    assert(s@.skip(0) =~= s@);
    while start < s.len()
        invariant
            start <= s.len(),
            lines(s@) == char_views(out@) + lines(s@.skip(start as int)),
        decreases s.len() - start,
    {
        let ghost rest = s@.skip(start as int);
        let mut k = start;
        while k < s.len() && s[k] != '\n'
            invariant
                start <= k <= s.len(),
                forall|j: int| start <= j < k ==> s@[j] != '\n',
            decreases s.len() - k,
        {
            k += 1;
        }
        proof {
            assert forall|j: int| 0 <= j < k - start implies rest[j] != '\n' by {
                assert(rest[j] == s@[start + j]);
            }
            lemma_line_end_index(rest, k - start);
        }
        let ghost prev = char_views(out@);
        if k < s.len() {
            let mut end = k;
            if end > start && s[end - 1] == '\r' {
                end -= 1;
            }
            let line = slice_chars(s, start, end);
            proof {
                assert(rest.take(k - start) =~= s@.subrange(start as int, k as int));
                assert(line@ =~= strip_cr(rest.take(k - start)));
                assert(rest.skip(k - start + 1) =~= s@.skip(k + 1));
            }
            out.push(line);
            assert(char_views(out@) =~= prev.push(line@));
            assert(prev + (seq![line@] + lines(s@.skip(k + 1))) =~= char_views(out@) + lines(
                s@.skip(k + 1),
            ));
            start = k + 1;
        } else {
            let line = slice_chars(s, start, k);
            assert(line@ =~= rest);
            out.push(line);
            assert(char_views(out@) =~= prev.push(line@));
            assert(s@.skip(k as int) =~= Seq::<char>::empty());
            assert(prev + seq![rest] =~= char_views(out@) + lines(s@.skip(k as int)));
            start = k;
        }
    }
    assert(s@.skip(start as int) =~= Seq::<char>::empty());
    assert(char_views(out@) + Seq::<Seq<char>>::empty() =~= char_views(out@));
    out
}

// ──────────────────────────────────────────────────────────────────────────
// Words (`str::split_whitespace`)
// ──────────────────────────────────────────────────────────────────────────

/// Number of maximal runs of non-white-space characters.
pub open spec fn word_count(s: Seq<char>) -> nat
    decreases s.len(),
{
    if s.len() == 0 {
        0
    } else {
        word_count(s.drop_last()) + if !is_ws(s.last()) && (s.len() == 1 || is_ws(
            s[s.len() - 2],
        )) {
            1nat
        } else {
            0nat
        }
    }
}

proof fn lemma_word_count_le(s: Seq<char>)
    ensures
        word_count(s) <= s.len(),
    decreases s.len(),
{
    if s.len() > 0 {
        lemma_word_count_le(s.drop_last());
    }
}

/// A word begins at `i`: a non-white-space character at the start or after
/// white space.
pub open spec fn word_start(s: Seq<char>, i: int) -> bool {
    0 <= i < s.len() && !is_ws(s[i]) && (i == 0 || is_ws(s[i - 1]))
}

/// The positions where a word begins.
pub open spec fn word_starts(s: Seq<char>) -> Set<int> {
    Set::new(|i: int| word_start(s, i))
}

/// The word count is the number of positions where a word begins: a
/// non-white-space character at the start of the text or right after
/// white space.
pub proof fn law_word_count_starts(s: Seq<char>)
    ensures
        word_starts(s).finite(),
        word_count(s) == word_starts(s).len(),
    decreases s.len(),
{
    if s.len() == 0 {
        assert(word_starts(s) =~= Set::<int>::empty());
    } else {
        let d = s.drop_last();
        let n = s.len() - 1;
        law_word_count_starts(d);
        assert forall|i: int| 0 <= i < n implies (word_start(s, i) == word_start(d, i)) by {
            assert(s[i] == d[i]);
            if i > 0 {
                assert(s[i - 1] == d[i - 1]);
            }
        }
        assert(!word_starts(d).contains(n));
        if word_start(s, n) {
            assert(word_starts(s) =~= word_starts(d).insert(n));
        } else {
            assert(word_starts(s) =~= word_starts(d));
        }
    }
}

/// A word does not split: putting a non-white-space character right after
/// another (inside or at the end of a word, a hyphen among them) leaves the
/// word count unchanged.
pub proof fn law_word_count_insert_in_word(s: Seq<char>, i: int, c: char)
    requires
        0 < i <= s.len(),
        !is_ws(c),
        !is_ws(s[i - 1]),
    ensures
        word_count(s.take(i) + seq![c] + s.skip(i)) == word_count(s),
    decreases s.len(),
{
    let ins = s.take(i) + seq![c] + s.skip(i);
    if i == s.len() {
        assert(ins.drop_last() =~= s);
        assert(ins[ins.len() - 2] == s[i - 1]);
    } else {
        let d = s.drop_last();
        assert(ins.drop_last() =~= d.take(i) + seq![c] + d.skip(i));
        assert(ins.last() == s.last());
        assert(d[i - 1] == s[i - 1]);
        law_word_count_insert_in_word(d, i, c);
        if i < s.len() - 1 {
            assert(ins[ins.len() - 2] == s[s.len() - 2]);
        } else {
            assert(ins[ins.len() - 2] == c);
        }
    }
}

/// `s.split_whitespace().count()`.
pub fn count_words_chars(s: &Vec<char>) -> (r: usize)
    ensures
        r == word_count(s@),
{
    let mut count: usize = 0;
    let mut i: usize = 0;
    while i < s.len()
        invariant
            i <= s.len(),
            count == word_count(s@.take(i as int)),
            count <= i,
        decreases s.len() - i,
    {
        let starts = !is_whitespace(s[i]) && (i == 0 || is_whitespace(s[i - 1]));
        proof {
            let t = s@.take(i + 1);
            assert(t.drop_last() =~= s@.take(i as int));
            assert(t.last() == s@[i as int]);
            if i > 0 {
                assert(t[t.len() - 2] == s@[i - 1]);
            }
        }
        if starts {
            count += 1;
        }
        i += 1;
    }
    assert(s@.take(s.len() as int) =~= s@);
    count
}

// ──────────────────────────────────────────────────────────────────────────
// Decimal numbers
// ──────────────────────────────────────────────────────────────────────────

pub open spec fn digit_char(d: nat) -> char {
    ((d % 10) + 48) as char
}

/// Decimal representation of `n` (no sign, no leading zeros).
pub open spec fn decimal(n: nat) -> Seq<char>
    decreases n,
{
    if n < 10 {
        seq![digit_char(n)]
    } else {
        decimal(n / 10).push(digit_char(n % 10))
    }
}

/// `decimal(n)` left-padded with `'0'` to at least `w` characters
/// (`format!("{:0w$}", n)`).
pub open spec fn zero_padded(n: nat, w: nat) -> Seq<char> {
    let d = decimal(n);
    if d.len() >= w {
        d
    } else {
        Seq::new((w - d.len()) as nat, |i: int| '0') + d
    }
}

fn digit_of(d: u64) -> (c: char)
    requires
        d < 10,
    ensures
        c == digit_char(d as nat),
{
    if d == 0 { '0' } else if d == 1 { '1' } else if d == 2 { '2' } else if d == 3 { '3' }
    else if d == 4 { '4' } else if d == 5 { '5' } else if d == 6 { '6' } else if d == 7 { '7' }
    else if d == 8 { '8' } else { '9' }
}

/// Decimal digits of `n`.
pub fn decimal_chars(n: u64) -> (r: Vec<char>)
    ensures
        r@ == decimal(n as nat),
    decreases n,
{
    if n < 10 {
        let mut v: Vec<char> = Vec::new();
        v.push(digit_of(n));
        assert(v@ =~= seq![digit_char(n as nat)]);
        v
    } else {
        let mut v = decimal_chars(n / 10);
        v.push(digit_of(n % 10));
        assert(digit_char((n % 10) as nat) == digit_char((n as nat) % 10));
        v
    }
}

/// `decimal(n)` zero-padded to `w` characters.
pub fn zero_padded_chars(n: u64, w: usize) -> (r: Vec<char>)
    ensures
        r@ == zero_padded(n as nat, w as nat),
{
    let d = decimal_chars(n);
    if d.len() >= w {
        return d;
    }
    let mut r: Vec<char> = Vec::new();
    let pad = w - d.len();
    let mut i: usize = 0;
    while i < pad
        invariant
            i <= pad,
            r@ == Seq::new(i as nat, |j: int| '0'),
        decreases pad - i,
    {
        r.push('0');
        i += 1;
        assert(r@ =~= Seq::new(i as nat, |j: int| '0'));
    }
    let mut k: usize = 0;
    while k < d.len()
        invariant
            k <= d.len(),
            r@ == Seq::new(pad as nat, |j: int| '0') + d@.take(k as int),
        decreases d.len() - k,
    {
        r.push(d[k]);
        k += 1;
        assert(r@ =~= Seq::new(pad as nat, |j: int| '0') + d@.take(k as int));
    }
    assert(d@.take(d.len() as int) =~= d@);
    r
}

/// Appends all of `b` to `a`.
pub fn append_chars(a: &mut Vec<char>, b: &Vec<char>)
    ensures
        final(a)@ == old(a)@ + b@,
{
    let mut i: usize = 0;
    while i < b.len()
        invariant
            i <= b.len(),
            a@ == old(a)@ + b@.take(i as int),
        decreases b.len() - i,
    {
        a.push(b[i]);
        i += 1;
        assert(a@ =~= old(a)@ + b@.take(i as int));
    }
    assert(b@.take(b.len() as int) =~= b@);
}

} // verus!
