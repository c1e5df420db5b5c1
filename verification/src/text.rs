//! Text primitives shared by every module: the meaning of `str::trim`,
//! `str::lines`, substring search and line joining, stated over `Seq<char>`,
//! together with executable versions proved against those statements.

use vstd::prelude::*;
use vstd::string::*;

verus! {

// ---------------------------------------------------------------------------
// Specifications
// ---------------------------------------------------------------------------

/// `char::is_whitespace`: the Unicode `White_Space` property.
pub open spec fn is_ws(c: char) -> bool {
    ||| c == '\t'
    ||| c == '\n'
    ||| c == '\u{0B}'
    ||| c == '\u{0C}'
    ||| c == '\r'
    ||| c == ' '
    ||| c == '\u{85}'
    ||| c == '\u{A0}'
    ||| c == '\u{1680}'
    ||| ('\u{2000}' <= c && c <= '\u{200A}')
    ||| c == '\u{2028}'
    ||| c == '\u{2029}'
    ||| c == '\u{202F}'
    ||| c == '\u{205F}'
    ||| c == '\u{3000}'
}

/// Index of the first non-whitespace character at or after `i`.
pub open spec fn lead_from(s: Seq<char>, i: int) -> int
    decreases s.len() - i,
{
    if 0 <= i < s.len() && is_ws(s[i]) {
        lead_from(s, i + 1)
    } else {
        i
    }
}

/// End (exclusive) of the text before the trailing whitespace that ends at `j`.
pub open spec fn trail_to(s: Seq<char>, j: int) -> int
    decreases j,
{
    if 0 < j <= s.len() && is_ws(s[j - 1]) {
        trail_to(s, j - 1)
    } else {
        j
    }
}

/// `str::trim`: leading and trailing whitespace removed.
pub open spec fn trim(s: Seq<char>) -> Seq<char> {
    let a = lead_from(s, 0);
    if a >= s.len() {
        Seq::empty()
    } else {
        s.subrange(a, trail_to(s, s.len() as int))
    }
}

/// Lines ended by a `'\n'` so far, and the unfinished tail after the last one.
pub open spec fn split_nl(s: Seq<char>) -> (Seq<Seq<char>>, Seq<char>)
    decreases s.len(),
{
    if s.len() == 0 {
        (Seq::empty(), Seq::empty())
    } else {
        let (done, cur) = split_nl(s.drop_last());
        if s.last() == '\n' {
            (done.push(cur), Seq::empty())
        } else {
            (done, cur.push(s.last()))
        }
    }
}

/// A line that was ended by `"\r\n"` loses its `'\r'`.
pub open spec fn strip_cr(l: Seq<char>) -> Seq<char> {
    if l.len() > 0 && l.last() == '\r' {
        l.drop_last()
    } else {
        l
    }
}

/// A line that ends with `'\r'` even after `lines` took off the one before a
/// `'\n'`: written back followed by a `'\n'`, it reads back one `'\r'`
/// shorter.
pub open spec fn ends_with_cr(l: Seq<char>) -> bool {
    l.len() > 0 && l.last() == '\r'
}

/// `str::lines`: split at `'\n'` (a preceding `'\r'` is dropped), with no
/// empty line after a final `'\n'`.
pub open spec fn lines(s: Seq<char>) -> Seq<Seq<char>> {
    let (done, cur) = split_nl(s);
    let ended = done.map_values(|l: Seq<char>| strip_cr(l));
    if cur.len() > 0 {
        ended.push(cur)
    } else {
        ended
    }
}

/// Each line followed by `'\n'`.
pub open spec fn join_nl(k: Seq<Seq<char>>) -> Seq<char>
    decreases k.len(),
{
    if k.len() == 0 {
        Seq::empty()
    } else {
        join_nl(k.drop_last()) + k.last() + seq!['\n']
    }
}

/// `[..].join("\n")`.
pub open spec fn join_sep(k: Seq<Seq<char>>) -> Seq<char>
    decreases k.len(),
{
    if k.len() == 0 {
        Seq::empty()
    } else if k.len() == 1 {
        k[0]
    } else {
        join_sep(k.drop_last()) + seq!['\n'] + k.last()
    }
}

/// `needle` occurs in `hay` at position `i`.
pub open spec fn occurs_at(hay: Seq<char>, needle: Seq<char>, i: int) -> bool {
    0 <= i && i + needle.len() <= hay.len() && hay.subrange(i, i + needle.len()) == needle
}

/// `str::contains` with a string pattern.
pub open spec fn contains(hay: Seq<char>, needle: Seq<char>) -> bool {
    exists|i: int| occurs_at(hay, needle, i)
}

/// `str::starts_with` with a string pattern.
pub open spec fn starts_with(hay: Seq<char>, needle: Seq<char>) -> bool {
    occurs_at(hay, needle, 0)
}

/// `str::contains` with a character pattern.
pub open spec fn has_char(s: Seq<char>, c: char) -> bool {
    exists|i: int| 0 <= i < s.len() && s[i] == c
}

/// `PathBuf::join` with a single component: an absolute component replaces
/// the base; otherwise a `'/'` is put between them unless the base is empty
/// or already ends with one.
pub open spec fn path_join(base: Seq<char>, name: Seq<char>) -> Seq<char> {
    if name.len() > 0 && name[0] == '/' {
        name
    } else if base.len() == 0 || base.last() == '/' {
        base + name
    } else {
        base + seq!['/'] + name
    }
}

/// Pieces between occurrences of `sep` so far, and the piece being read.
pub open spec fn split_by(s: Seq<char>, sep: char) -> (Seq<Seq<char>>, Seq<char>)
    decreases s.len(),
{
    if s.len() == 0 {
        (Seq::empty(), Seq::empty())
    } else {
        let (done, cur) = split_by(s.drop_last(), sep);
        if s.last() == sep {
            (done.push(cur), Seq::empty())
        } else {
            (done, cur.push(s.last()))
        }
    }
}

/// `str::split` with a character pattern: always at least one piece.
pub open spec fn pieces(s: Seq<char>, sep: char) -> Seq<Seq<char>> {
    split_by(s, sep).0.push(split_by(s, sep).1)
}

pub open spec fn is_digit(c: char) -> bool {
    '0' <= c && c <= '9'
}

pub open spec fn digit_value(c: char) -> int {
    c as int - '0' as int
}

pub open spec fn all_digits(s: Seq<char>) -> bool {
    forall|i: int| 0 <= i < s.len() ==> is_digit(#[trigger] s[i])
}

/// The number written by a string of decimal digits.
pub open spec fn digits_value(s: Seq<char>) -> nat
    decreases s.len(),
{
    if s.len() == 0 {
        0
    } else {
        (digits_value(s.drop_last()) * 10 + digit_value(s.last())) as nat
    }
}

/// `str::parse` for an unsigned integer type whose largest value is `max`:
/// an optional `'+'`, then one or more decimal digits whose value is at most
/// `max`.
pub open spec fn parse_uint(s: Seq<char>, max: nat) -> Option<nat> {
    let d = if s.len() > 0 && s[0] == '+' {
        s.skip(1)
    } else {
        s
    };
    if d.len() > 0 && all_digits(d) && digits_value(d) <= max {
        Some(digits_value(d))
    } else {
        None
    }
}

pub open spec fn digit_char(d: int) -> char {
    if d == 0 {
        '0'
    } else if d == 1 {
        '1'
    } else if d == 2 {
        '2'
    } else if d == 3 {
        '3'
    } else if d == 4 {
        '4'
    } else if d == 5 {
        '5'
    } else if d == 6 {
        '6'
    } else if d == 7 {
        '7'
    } else if d == 8 {
        '8'
    } else {
        '9'
    }
}

/// The decimal digits of `n` (`u32::to_string`).
pub open spec fn decimal(n: nat) -> Seq<char>
    decreases n,
{
    if n < 10 {
        seq![digit_char(n as int)]
    } else {
        decimal(n / 10).push(digit_char((n % 10) as int))
    }
}

/// `ASCII` letters and digits (`char::is_ascii_alphanumeric`).
pub open spec fn is_ascii_alnum(c: char) -> bool {
    ('a' <= c && c <= 'z') || ('A' <= c && c <= 'Z') || ('0' <= c && c <= '9')
}

/// The views of a vector of character vectors.
pub open spec fn views(v: Seq<Vec<char>>) -> Seq<Seq<char>> {
    v.map_values(|l: Vec<char>| l@)
}

/// The views of a slice of strings.
pub open spec fn str_views(v: Seq<String>) -> Seq<Seq<char>> {
    v.map_values(|l: String| l@)
}

// ---------------------------------------------------------------------------
// Lemmas
// ---------------------------------------------------------------------------

pub proof fn lemma_trail_to_above(s: Seq<char>, j: int, k: int)
    requires
        0 <= k < j <= s.len(),
        !is_ws(s[k]),
    ensures
        k < trail_to(s, j) <= j,
    decreases j,
{
    if is_ws(s[j - 1]) {
        lemma_trail_to_above(s, j - 1, k);
    }
}

pub proof fn lemma_lead_from_bounds(s: Seq<char>, i: int)
    requires
        0 <= i <= s.len(),
    ensures
        i <= lead_from(s, i) <= s.len(),
        lead_from(s, i) < s.len() ==> !is_ws(s[lead_from(s, i)]),
    decreases s.len() - i,
{
    if i < s.len() && is_ws(s[i]) {
        lemma_lead_from_bounds(s, i + 1);
    }
}

pub proof fn lemma_trail_to_bounds(s: Seq<char>, j: int)
    requires
        0 <= j <= s.len(),
    ensures
        0 <= trail_to(s, j) <= j,
        trail_to(s, j) > 0 ==> !is_ws(s[trail_to(s, j) - 1]),
    decreases j,
{
    if j > 0 && is_ws(s[j - 1]) {
        lemma_trail_to_bounds(s, j - 1);
    }
}

/// A text whose first and last characters are not whitespace is its own trim.
pub proof fn lemma_trim_unchanged(s: Seq<char>)
    requires
        s.len() > 0,
        !is_ws(s[0]),
        !is_ws(s.last()),
    ensures
        trim(s) == s,
{
    assert(lead_from(s, 0) == 0);
    assert(trail_to(s, s.len() as int) == s.len());
    assert(s.subrange(0, s.len() as int) =~= s);
}

/// The trim of a text starting with a non-whitespace character starts with it.
pub proof fn lemma_trim_first(s: Seq<char>)
    requires
        s.len() > 0,
        !is_ws(s[0]),
    ensures
        trim(s).len() > 0,
        trim(s)[0] == s[0],
{
    assert(lead_from(s, 0) == 0);
    lemma_trail_to_above(s, s.len() as int, 0);
}

/// `trim` yields the empty text exactly when the text is all whitespace.
pub proof fn lemma_trim_empty(s: Seq<char>)
    ensures
        trim(s).len() == 0 <==> (forall|i: int| 0 <= i < s.len() ==> is_ws(#[trigger] s[i])),
{
    lemma_lead_from_bounds(s, 0);
    if lead_from(s, 0) < s.len() {
        let a = lead_from(s, 0);
        lemma_trail_to_above(s, s.len() as int, a);
        assert(!is_ws(s[a]));
    } else {
        lemma_lead_all_ws(s, 0);
    }
}

proof fn lemma_lead_drop_ws_last(l: Seq<char>, i: int)
    requires
        l.len() > 0,
        is_ws(l.last()),
        0 <= i <= l.len() - 1,
    ensures
        lead_from(l.drop_last(), i) == if lead_from(l, i) >= l.len() {
            l.len() - 1
        } else {
            lead_from(l, i)
        },
    decreases l.len() - i,
{
    let m = l.drop_last();
    if i < m.len() {
        assert(m[i] == l[i]);
        if is_ws(l[i]) {
            lemma_lead_drop_ws_last(l, i + 1);
        }
    } else {
        assert(l[i] == l.last());
        assert(lead_from(l, i + 1) == i + 1);
    }
}

proof fn lemma_trail_drop_last(l: Seq<char>, j: int)
    requires
        0 <= j <= l.len() - 1,
    ensures
        trail_to(l.drop_last(), j) == trail_to(l, j),
    decreases j,
{
    if 0 < j {
        assert(l.drop_last()[j - 1] == l[j - 1]);
        if is_ws(l[j - 1]) {
            lemma_trail_drop_last(l, j - 1);
        }
    }
}

/// Taking off a trailing whitespace character does not change the trim.
pub proof fn lemma_trim_drop_ws_last(l: Seq<char>)
    requires
        l.len() > 0,
        is_ws(l.last()),
    ensures
        trim(l.drop_last()) == trim(l),
{
    let m = l.drop_last();
    lemma_lead_drop_ws_last(l, 0);
    lemma_lead_from_bounds(l, 0);
    let a = lead_from(l, 0);
    if a < l.len() {
        assert(a != l.len() - 1);
        lemma_trail_drop_last(l, l.len() - 1);
        assert(trail_to(l, l.len() as int) == trail_to(l, l.len() - 1));
        lemma_trail_to_above(l, l.len() - 1, a);
        assert(m.subrange(a, trail_to(l, l.len() - 1)) =~= l.subrange(a, trail_to(l, l.len() - 1)));
    }
}

/// `lines` dropping a `'\r'` before a `'\n'` does not change the trim.
pub proof fn lemma_trim_strip_cr(l: Seq<char>)
    ensures
        trim(strip_cr(l)) == trim(l),
{
    if l.len() > 0 && l.last() == '\r' {
        lemma_trim_drop_ws_last(l);
    }
}

pub proof fn lemma_lead_all_ws(s: Seq<char>, i: int)
    requires
        0 <= i <= s.len(),
        lead_from(s, i) >= s.len(),
    ensures
        forall|k: int| i <= k < s.len() ==> is_ws(#[trigger] s[k]),
    decreases s.len() - i,
{
    if i < s.len() {
        lemma_lead_all_ws(s, i + 1);
    }
}

pub proof fn lemma_split_nl_no_nl(s: Seq<char>)
    requires
        !has_char(s, '\n'),
    ensures
        split_nl(s) == (Seq::<Seq<char>>::empty(), s),
    decreases s.len(),
{
    if s.len() > 0 {
        assert(s.last() == s[s.len() - 1]);
        assert(!has_char(s.drop_last(), '\n')) by {
            if has_char(s.drop_last(), '\n') {
                let i = choose|i: int| 0 <= i < s.drop_last().len() && s.drop_last()[i] == '\n';
                assert(s[i] == '\n');
            }
        }
        lemma_split_nl_no_nl(s.drop_last());
        assert(s.drop_last().push(s.last()) =~= s);
    }
}

/// Splitting a concatenation whose first part ends a line.
pub proof fn lemma_split_nl_append(a: Seq<char>, b: Seq<char>)
    requires
        split_nl(a).1.len() == 0,
    ensures
        split_nl(a + b) == (split_nl(a).0 + split_nl(b).0, split_nl(b).1),
    decreases b.len(),
{
    if b.len() == 0 {
        assert(a + b =~= a);
        assert(split_nl(a).0 + split_nl(b).0 =~= split_nl(a).0);
    } else {
        assert((a + b).drop_last() =~= a + b.drop_last());
        assert((a + b).last() == b.last());
        lemma_split_nl_append(a, b.drop_last());
        let (d1, c1) = split_nl(b.drop_last());
        if b.last() == '\n' {
            assert(split_nl(a).0 + d1.push(c1) =~= (split_nl(a).0 + d1).push(c1));
        }
    }
}

/// A line without `'\n'`, followed by `'\n'`, splits into that one line.
pub proof fn lemma_split_nl_one_line(l: Seq<char>)
    requires
        !has_char(l, '\n'),
    ensures
        split_nl(l + seq!['\n']) == (seq![l], Seq::<char>::empty()),
{
    lemma_split_nl_no_nl(l);
    let s = l + seq!['\n'];
    assert(s.drop_last() =~= l);
    assert(Seq::<Seq<char>>::empty().push(l) =~= seq![l]);
}

/// Joining lines that hold no `'\n'` and splitting again gives them back.
pub proof fn lemma_split_join_nl(k: Seq<Seq<char>>)
    requires
        forall|i: int| 0 <= i < k.len() ==> !has_char(#[trigger] k[i], '\n'),
    ensures
        split_nl(join_nl(k)) == (k, Seq::<char>::empty()),
    decreases k.len(),
{
    if k.len() > 0 {
        let init = k.drop_last();
        assert forall|i: int| 0 <= i < init.len() implies !has_char(#[trigger] init[i], '\n') by {
            assert(init[i] == k[i]);
        }
        lemma_split_join_nl(init);
        assert(!has_char(k[k.len() - 1], '\n'));
        lemma_split_nl_one_line(k.last());
        assert(join_nl(k) =~= join_nl(init) + (k.last() + seq!['\n']));
        lemma_split_nl_append(join_nl(init), k.last() + seq!['\n']);
        assert(init + seq![k.last()] =~= k);
    }
}

/// `lines` of joined lines, when no line holds `'\n'` or ends with `'\r'`.
pub proof fn lemma_lines_join_nl(k: Seq<Seq<char>>)
    requires
        forall|i: int| 0 <= i < k.len() ==> !has_char(#[trigger] k[i], '\n'),
        forall|i: int| 0 <= i < k.len() ==> strip_cr(#[trigger] k[i]) == k[i],
    ensures
        lines(join_nl(k)) == k,
{
    lemma_split_join_nl(k);
    assert(k.map_values(|l: Seq<char>| strip_cr(l)) =~= k);
}

/// `lines` of a concatenation whose first part ends a line.
pub proof fn lemma_lines_append(a: Seq<char>, b: Seq<char>)
    requires
        split_nl(a).1.len() == 0,
    ensures
        lines(a + b) == lines(a) + lines(b),
{
    lemma_split_nl_append(a, b);
    let (da, _ca) = split_nl(a);
    let (db, cb) = split_nl(b);
    let f = |l: Seq<char>| strip_cr(l);
    assert((da + db).map_values(f) =~= da.map_values(f) + db.map_values(f));
    if cb.len() > 0 {
        assert((da.map_values(f) + db.map_values(f)).push(cb) =~= da.map_values(f) + db.map_values(
            f,
        ).push(cb));
    }
}

/// `join_nl` ends every line, so its split has no unfinished tail.
pub proof fn lemma_join_nl_ended(k: Seq<Seq<char>>)
    ensures
        split_nl(join_nl(k)).1.len() == 0,
        join_nl(k).len() == 0 || join_nl(k).last() == '\n',
    decreases k.len(),
{
    if k.len() > 0 {
        let s = join_nl(k);
        assert(s.last() == '\n');
    }
}

/// No line of a split holds `'\n'`.
pub proof fn lemma_split_nl_chars(s: Seq<char>)
    ensures
        forall|j: int|
            0 <= j < split_nl(s).0.len() ==> !has_char(#[trigger] split_nl(s).0[j], '\n'),
        !has_char(split_nl(s).1, '\n'),
    decreases s.len(),
{
    if s.len() > 0 {
        let p = s.drop_last();
        lemma_split_nl_chars(p);
        let (d, c) = split_nl(p);
        if s.last() != '\n' {
            let c2 = c.push(s.last());
            assert(!has_char(c2, '\n')) by {
                if has_char(c2, '\n') {
                    let i = choose|i: int| 0 <= i < c2.len() && c2[i] == '\n';
                    if i < c.len() {
                        assert(c[i] == '\n');
                    }
                }
            }
        } else {
            assert(!has_char(Seq::<char>::empty(), '\n'));
        }
    }
}

/// No line that `lines` yields holds `'\n'`.
pub proof fn lemma_lines_chars(s: Seq<char>)
    ensures
        forall|j: int| 0 <= j < lines(s).len() ==> !has_char(#[trigger] lines(s)[j], '\n'),
{
    lemma_split_nl_chars(s);
    let (d, c) = split_nl(s);
    assert forall|j: int| 0 <= j < lines(s).len() implies !has_char(#[trigger] lines(s)[j], '\n')
        by {
        if j < d.len() {
            let l = d[j];
            assert(lines(s)[j] == strip_cr(l));
            if l.len() > 0 && l.last() == '\r' {
                let m = l.drop_last();
                if has_char(m, '\n') {
                    let i = choose|i: int| 0 <= i < m.len() && m[i] == '\n';
                    assert(l[i] == '\n');
                }
            }
        } else {
            assert(lines(s)[j] == c);
        }
    }
}

pub proof fn lemma_join_one(l: Seq<char>)
    ensures
        join_nl(seq![l]) == l + seq!['\n'],
{
    assert(seq![l].drop_last() =~= Seq::<Seq<char>>::empty());
    assert(join_nl(Seq::<Seq<char>>::empty()) == Seq::<char>::empty());
    assert(join_nl(seq![l]) =~= l + seq!['\n']);
}

pub proof fn lemma_join_nl_append(a: Seq<Seq<char>>, b: Seq<Seq<char>>)
    ensures
        join_nl(a + b) == join_nl(a) + join_nl(b),
    decreases b.len(),
{
    if b.len() == 0 {
        assert(a + b =~= a);
        assert(join_nl(a) + join_nl(b) =~= join_nl(a));
    } else {
        assert((a + b).drop_last() =~= a + b.drop_last());
        lemma_join_nl_append(a, b.drop_last());
        assert(join_nl(a + b) =~= join_nl(a) + join_nl(b));
    }
}

// ---------------------------------------------------------------------------
// Executable helpers
// ---------------------------------------------------------------------------

/// Appends one character to a `String` by calling `String::push`, which vstd
/// gives no specification. Its contract, taken on trust from the standard
/// library's documentation: the string's characters afterwards are those
/// before, followed by `c`.
#[verifier::external_body]
pub(crate) fn push_char(s: &mut String, c: char)
    ensures
        final(s)@ == old(s)@.push(c),
{
    s.push(c);
}

/// The characters of a string slice, in order.
pub fn chars_of(s: &str) -> (v: Vec<char>)
    ensures
        v@ == s@,
{
    let n = s.unicode_len();
    let mut v: Vec<char> = Vec::new();
    let mut i: usize = 0;
    while i < n
        invariant
            n == s@.len(),
            i <= n,
            v@ == s@.take(i as int),
        decreases n - i,
    {
        v.push(s.get_char(i));
        i = i + 1;
        assert(v@ =~= s@.take(i as int));
    }
    assert(s@.take(n as int) =~= s@);
    v
}

/// A `String` holding exactly the given characters.
pub fn string_of(v: &Vec<char>) -> (s: String)
    ensures
        s@ == v@,
{
    let mut s = String::new();
    let mut i: usize = 0;
    while i < v.len()
        invariant
            i <= v.len(),
            s@ == v@.take(i as int),
        decreases v.len() - i,
    {
        push_char(&mut s, v[i]);
        i = i + 1;
        assert(s@ =~= v@.take(i as int));
    }
    assert(v@.take(v.len() as int) =~= v@);
    s
}

/// Appends all characters of `src` to `dst`.
pub fn extend_chars(dst: &mut Vec<char>, src: &Vec<char>)
    ensures
        final(dst)@ == old(dst)@ + src@,
{
    let mut i: usize = 0;
    while i < src.len()
        invariant
            i <= src.len(),
            dst@ == old(dst)@ + src@.take(i as int),
        decreases src.len() - i,
    {
        dst.push(src[i]);
        i = i + 1;
        assert(dst@ =~= old(dst)@ + src@.take(i as int));
    }
    assert(src@.take(src.len() as int) =~= src@);
}

/// A copy of a character vector.
pub fn copy_chars(v: &Vec<char>) -> (r: Vec<char>)
    ensures
        r@ == v@,
{
    let mut r: Vec<char> = Vec::new();
    extend_chars(&mut r, v);
    r
}

/// Appends all characters of `src` to `dst`.
pub fn extend_str(dst: &mut Vec<char>, src: &str)
    ensures
        final(dst)@ == old(dst)@ + src@,
{
    let v = chars_of(src);
    extend_chars(dst, &v);
}

/// `c` is whitespace (`char::is_whitespace`).
pub fn is_ws_char(c: char) -> (r: bool)
    ensures
        r == is_ws(c),
{
    c == '\t' || c == '\n' || c == '\u{0B}' || c == '\u{0C}' || c == '\r' || c == ' ' || c
        == '\u{85}' || c == '\u{A0}' || c == '\u{1680}' || ('\u{2000}' <= c && c <= '\u{200A}')
        || c == '\u{2028}' || c == '\u{2029}' || c == '\u{202F}' || c == '\u{205F}' || c
        == '\u{3000}'
}

/// The characters of `v` from `a` up to (not including) `b`.
pub fn slice_chars(v: &Vec<char>, a: usize, b: usize) -> (r: Vec<char>)
    requires
        a <= b <= v.len(),
    ensures
        r@ == v@.subrange(a as int, b as int),
{
    let mut r: Vec<char> = Vec::new();
    let mut i: usize = a;
    while i < b
        invariant
            a <= i <= b <= v.len(),
            r@ == v@.subrange(a as int, i as int),
        decreases b - i,
    {
        r.push(v[i]);
        i = i + 1;
        assert(r@ =~= v@.subrange(a as int, i as int));
    }
    r
}

/// `str::trim` on a character vector.
pub fn trim_chars(v: &Vec<char>) -> (r: Vec<char>)
    ensures
        r@ == trim(v@),
{
    let n = v.len();
    let mut a: usize = 0;
    while a < n && is_ws_char(v[a])
        invariant
            a <= n == v@.len(),
            lead_from(v@, 0) == lead_from(v@, a as int),
        decreases n - a,
    {
        a = a + 1;
    }
    if a >= n {
        return Vec::new();
    }
    let mut b: usize = n;
    proof {
        lemma_trail_to_above(v@, n as int, a as int);
    }
    while b > 0 && is_ws_char(v[b - 1])
        invariant
            b <= n == v@.len(),
            a < n,
            !is_ws(v@[a as int]),
            a < b,
            trail_to(v@, n as int) == trail_to(v@, b as int),
        decreases b,
    {
        b = b - 1;
        proof {
            if b == a {
                assert(is_ws(v@[a as int]));
            }
        }
    }
    slice_chars(v, a, b)
}

/// Equality of two character sequences.
pub fn chars_eq(x: &Vec<char>, y: &Vec<char>) -> (r: bool)
    ensures
        r == (x@ == y@),
{
    if x.len() != y.len() {
        return false;
    }
    let mut i: usize = 0;
    while i < x.len()
        invariant
            x.len() == y.len(),
            i <= x.len(),
            forall|k: int| 0 <= k < i ==> x@[k] == y@[k],
        decreases x.len() - i,
    {
        if x[i] != y[i] {
            return false;
        }
        i = i + 1;
    }
    assert(x@ =~= y@);
    true
}

/// `needle` occurs in `hay` at position `i`.
pub fn occurs_at_exec(hay: &Vec<char>, needle: &Vec<char>, i: usize) -> (r: bool)
    ensures
        r == occurs_at(hay@, needle@, i as int),
{
    if i > hay.len() || needle.len() > hay.len() - i {
        return false;
    }
    let mut k: usize = 0;
    while k < needle.len()
        invariant
            i + needle.len() <= hay.len(),
            k <= needle.len(),
            forall|j: int| 0 <= j < k ==> hay@[i + j] == needle@[j],
        decreases needle.len() - k,
    {
        if hay[i + k] != needle[k] {
            assert(hay@.subrange(i as int, i + needle.len())[k as int] != needle@[k as int]);
            return false;
        }
        k = k + 1;
    }
    assert(hay@.subrange(i as int, i + needle.len()) =~= needle@);
    true
}

/// `str::contains` on character vectors.
pub fn contains_chars(hay: &Vec<char>, needle: &Vec<char>) -> (r: bool)
    ensures
        r == contains(hay@, needle@),
{
    if needle.len() > hay.len() {
        return false;
    }
    let last = hay.len() - needle.len();
    let mut i: usize = 0;
    while i < last
        invariant
            i <= last,
            last + needle.len() == hay.len(),
            forall|j: int| 0 <= j < i ==> !occurs_at(hay@, needle@, j),
        decreases last - i,
    {
        if occurs_at_exec(hay, needle, i) {
            return true;
        }
        i = i + 1;
    }
    if occurs_at_exec(hay, needle, last) {
        return true;
    }
    assert forall|j: int| !occurs_at(hay@, needle@, j) by {
        if 0 <= j < i {
        }
    }
    false
}

/// `str::starts_with` on character vectors.
pub fn starts_with_chars(hay: &Vec<char>, needle: &Vec<char>) -> (r: bool)
    ensures
        r == starts_with(hay@, needle@),
{
    occurs_at_exec(hay, needle, 0)
}

/// `PathBuf::join` of a base path and one component.
pub fn path_join_exec(base: &str, name: &str) -> (r: String)
    ensures
        r@ == path_join(base@, name@),
{
    let b = chars_of(base);
    let n = chars_of(name);
    let mut out: Vec<char> = Vec::new();
    if n.len() > 0 && n[0] == '/' {
        extend_chars(&mut out, &n);
    } else if b.len() == 0 || b[b.len() - 1] == '/' {
        extend_chars(&mut out, &b);
        extend_chars(&mut out, &n);
    } else {
        extend_chars(&mut out, &b);
        out.push('/');
        extend_chars(&mut out, &n);
    }
    string_of(&out)
}

/// `[..].join("\n")` on character vectors.
pub fn join_lines(k: &Vec<Vec<char>>) -> (r: Vec<char>)
    ensures
        r@ == join_sep(views(k@)),
{
    let mut out: Vec<char> = Vec::new();
    let mut i: usize = 0;
    while i < k.len()
        invariant
            i <= k.len(),
            out@ == join_sep(views(k@).take(i as int)),
        decreases k.len() - i,
    {
        let ghost pre = views(k@).take(i as int);
        assert(views(k@).take(i + 1).drop_last() =~= pre);
        assert(views(k@).take(i + 1).last() == k@[i as int]@);
        if i > 0 {
            out.push('\n');
        } else {
            assert(views(k@).take(1) =~= seq![k@[0]@]);
            assert(out@ =~= Seq::<char>::empty());
        }
        extend_chars(&mut out, &k[i]);
        i = i + 1;
    }
    assert(views(k@).take(k.len() as int) =~= views(k@));
    out
}

pub proof fn lemma_digits_value_mono(s: Seq<char>, k: int)
    requires
        0 <= k <= s.len(),
        all_digits(s),
    ensures
        digits_value(s.take(k)) <= digits_value(s),
    decreases s.len() - k,
{
    if k < s.len() {
        lemma_digits_value_mono(s, k + 1);
        assert(s.take(k + 1).drop_last() =~= s.take(k));
        assert(is_digit(s[k]));
    } else {
        assert(s.take(k) =~= s);
    }
}

/// `str::parse::<uN>()` where `max` is the largest `uN`.
pub fn parse_uint_chars(v: &Vec<char>, max: u64) -> (r: Option<u64>)
    ensures
        match parse_uint(v@, max as nat) {
            Some(n) => r == Some(n as u64),
            None => r.is_none(),
        },
{
    let mut i: usize = 0;
    if v.len() > 0 && v[0] == '+' {
        i = 1;
    }
    let first = i;
    let ghost d = if v@.len() > 0 && v@[0] == '+' {
        v@.skip(1)
    } else {
        v@
    };
    assert(d =~= v@.skip(first as int));
    if first >= v.len() {
        return None;
    }
    let mut acc: u64 = 0;
    while i < v.len()
        invariant
            first <= i <= v.len(),
            d == v@.skip(first as int),
            d == (if v@.len() > 0 && v@[0] == '+' {
                v@.skip(1)
            } else {
                v@
            }),
            forall|k: int| first <= k < i ==> is_digit(#[trigger] v@[k]),
            acc as nat == digits_value(d.take(i - first)),
            acc <= max,
        decreases v.len() - i,
    {
        let c = v[i];
        if !('0' <= c && c <= '9') {
            proof {
                assert(d[i - first] == v@[i as int]);
                assert(!is_digit(d[i - first]));
                assert(!all_digits(d));
            }
            return None;
        }
        let dv = (c as u32 - '0' as u32) as u64;
        assert(d.take(i + 1 - first).drop_last() =~= d.take(i - first));
        assert(d.take(i + 1 - first).last() == c);
        if acc > max / 10 || dv > max || acc * 10 > max - dv {
            proof {
                assert(acc * 10 + dv > max) by (nonlinear_arith)
                    requires
                        acc > max / 10 || dv > max || (acc <= max / 10 && acc * 10 > max - dv),
                        dv <= 9,
                ;
                assert(all_digits(d) ==> digits_value(d) > max) by {
                    if all_digits(d) {
                        lemma_digits_value_mono(d, i + 1 - first);
                        assert(digits_value(d.take(i + 1 - first)) == acc * 10 + dv);
                    }
                }
            }
            return None;
        }
        acc = acc * 10 + dv;
        i = i + 1;
    }
    assert(d.take(v.len() - first) =~= d);
    Some(acc)
}

/// `str::split` at a character, on character vectors.
pub fn split_chars(v: &Vec<char>, sep: char) -> (r: Vec<Vec<char>>)
    ensures
        views(r@) == pieces(v@, sep),
{
    let mut done: Vec<Vec<char>> = Vec::new();
    let mut cur: Vec<char> = Vec::new();
    let mut i: usize = 0;
    while i < v.len()
        invariant
            i <= v.len(),
            views(done@) == split_by(v@.take(i as int), sep).0,
            cur@ == split_by(v@.take(i as int), sep).1,
        decreases v.len() - i,
    {
        let ghost prev = v@.take(i as int);
        let c = v[i];
        assert(v@.take(i + 1).drop_last() =~= prev);
        assert(v@.take(i + 1).last() == c);
        if c == sep {
            let ghost before = done@;
            done.push(cur);
            cur = Vec::new();
            assert(views(done@) =~= views(before).push(split_by(prev, sep).1));
        } else {
            cur.push(c);
        }
        i = i + 1;
    }
    assert(v@.take(v.len() as int) =~= v@);
    let ghost before = done@;
    done.push(cur);
    assert(views(done@) =~= views(before).push(split_by(v@, sep).1));
    done
}

fn digit_char_exec(d: u64) -> (c: char)
    requires
        d < 10,
    ensures
        c == digit_char(d as int),
{
    if d == 0 {
        '0'
    } else if d == 1 {
        '1'
    } else if d == 2 {
        '2'
    } else if d == 3 {
        '3'
    } else if d == 4 {
        '4'
    } else if d == 5 {
        '5'
    } else if d == 6 {
        '6'
    } else if d == 7 {
        '7'
    } else if d == 8 {
        '8'
    } else {
        '9'
    }
}

/// Appends the decimal digits of `n`.
pub fn push_decimal(out: &mut Vec<char>, n: u64)
    ensures
        final(out)@ == old(out)@ + decimal(n as nat),
    decreases n,
{
    if n >= 10 {
        push_decimal(out, n / 10);
    }
    out.push(digit_char_exec(n % 10));
    proof {
        if n >= 10 {
            assert(old(out)@ + decimal(n as nat) =~= old(out)@ + decimal((n / 10) as nat) + seq![
                digit_char((n % 10) as int),
            ]);
        } else {
            assert(n % 10 == n);
        }
    }
}

/// `c.is_ascii_alphanumeric()`.
pub fn is_ascii_alnum_exec(c: char) -> (r: bool)
    ensures
        r == is_ascii_alnum(c),
{
    ('a' <= c && c <= 'z') || ('A' <= c && c <= 'Z') || ('0' <= c && c <= '9')
}

/// The lines of a text (`str::lines`).
pub fn split_lines(v: &Vec<char>) -> (r: Vec<Vec<char>>)
    ensures
        views(r@) == lines(v@),
{
    let mut done: Vec<Vec<char>> = Vec::new();
    let mut cur: Vec<char> = Vec::new();
    let mut i: usize = 0;
    while i < v.len()
        invariant
            i <= v.len(),
            views(done@) == split_nl(v@.take(i as int)).0.map_values(|l: Seq<char>| strip_cr(l)),
            cur@ == split_nl(v@.take(i as int)).1,
        decreases v.len() - i,
    {
        let ghost prev = v@.take(i as int);
        let c = v[i];
        assert(v@.take(i + 1).drop_last() =~= prev);
        assert(v@.take(i + 1).last() == c);
        if c == '\n' {
            let mut line = cur;
            if line.len() > 0 && line[line.len() - 1] == '\r' {
                line.pop();
            }
            assert(line@ == strip_cr(split_nl(prev).1));
            let ghost before = done@;
            done.push(line);
            cur = Vec::new();
            assert(views(done@) =~= views(before).push(line@));
            assert(split_nl(prev).0.push(split_nl(prev).1).map_values(|l: Seq<char>| strip_cr(l))
                =~= split_nl(prev).0.map_values(|l: Seq<char>| strip_cr(l)).push(
                strip_cr(split_nl(prev).1),
            ));
            assert(views(done@) =~= split_nl(v@.take(i + 1)).0.map_values(
                |l: Seq<char>| strip_cr(l),
            ));
        } else {
            cur.push(c);
        }
        i = i + 1;
    }
    assert(v@.take(v.len() as int) =~= v@);
    if cur.len() > 0 {
        done.push(cur);
        assert(views(done@) =~= lines(v@));
    } else {
        assert(views(done@) =~= lines(v@));
    }
    done
}

} // verus!
