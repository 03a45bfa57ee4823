use vstd::prelude::*;

verus! {

broadcast use vstd::string::group_string_axioms;

/// The characters of `s`, in order.
pub fn chars_of(s: &str) -> (v: Vec<char>)
    ensures
        v@ == s@,
{
    let mut v: Vec<char> = Vec::new();
    for c in it: s.chars()
        invariant
            v@ == it.seq().take(it.index()),
            it.seq() == s@,
    {
        v.push(c);
        assert(v@ =~= it.seq().take(it.index() + 1));
    }
    assert(v@ =~= s@);
    v
}

// ---------------------------------------------------------------------------
// White space and trimming
// ---------------------------------------------------------------------------

/// The characters with the Unicode `White_Space` property.
pub open spec fn is_white_space(c: char) -> bool {
    ||| c == ' '
    ||| '\u{9}' <= c <= '\u{d}'
    ||| c == '\u{85}'
    ||| c == '\u{a0}'
    ||| c == '\u{1680}'
    ||| '\u{2000}' <= c <= '\u{200a}'
    ||| c == '\u{2028}'
    ||| c == '\u{2029}'
    ||| c == '\u{202f}'
    ||| c == '\u{205f}'
    ||| c == '\u{3000}'
}

/// Whether `c` has the Unicode `White_Space` property.
pub fn white_space(c: char) -> (b: bool)
    ensures
        b == is_white_space(c),
{
    c == ' ' || ('\u{9}' <= c && c <= '\u{d}') || c == '\u{85}' || c == '\u{a0}' || c
        == '\u{1680}' || ('\u{2000}' <= c && c <= '\u{200a}') || c == '\u{2028}' || c
        == '\u{2029}' || c == '\u{202f}' || c == '\u{205f}' || c == '\u{3000}'
}

/// The ASCII characters that are white space are exactly the space, tab,
/// line feed, vertical tab, form feed and carriage return.
pub proof fn lemma_ascii_white_space(c: char)
    requires
        (c as u32) < 128,
    ensures
        is_white_space(c) <==> (c == ' ' || c == '\t' || c == '\n' || c == '\u{b}' || c == '\u{c}'
            || c == '\r'),
{
}

/// No visible ASCII character (from `!` to `~`, digits and letters
/// included) is white space.
pub proof fn lemma_visible_ascii_not_white_space(c: char)
    requires
        '!' <= c <= '~',
    ensures
        !is_white_space(c),
{
}

/// `s` without the white space at its start.
pub open spec fn trim_start(s: Seq<char>) -> Seq<char>
    decreases s.len(),
{
    if s.len() > 0 && is_white_space(s[0]) {
        trim_start(s.drop_first())
    } else {
        s
    }
}

/// `s` without the white space at its end.
pub open spec fn trim_end(s: Seq<char>) -> Seq<char>
    decreases s.len(),
{
    if s.len() > 0 && is_white_space(s.last()) {
        trim_end(s.drop_last())
    } else {
        s
    }
}

/// `s` without the white space at either end.
pub open spec fn trim(s: Seq<char>) -> Seq<char> {
    trim_end(trim_start(s))
}

/// The bounds, in `v`, of the part of `v` between `lo` and `hi` without
/// the white space at either end.
pub fn trim_range(v: &Vec<char>, lo: usize, hi: usize) -> (r: (usize, usize))
    requires
        lo <= hi <= v.len(),
    ensures
        lo <= r.0 <= r.1 <= hi,
        v@.subrange(r.0 as int, r.1 as int) == trim(v@.subrange(lo as int, hi as int)),
{
    let ghost s = v@.subrange(lo as int, hi as int);
    let mut a: usize = lo;
    while a < hi && white_space(v[a])
        invariant
            lo <= a <= hi <= v.len(),
            s == v@.subrange(lo as int, hi as int),
            trim_start(s) == trim_start(v@.subrange(a as int, hi as int)),
        decreases hi - a,
    {
        assert(v@.subrange(a as int, hi as int).drop_first() =~= v@.subrange(
            a as int + 1,
            hi as int,
        ));
        a = a + 1;
    }
    let ghost t = v@.subrange(a as int, hi as int);
    assert(trim_start(s) == t);
    let mut b: usize = hi;
    while b > a && white_space(v[b - 1])
        invariant
            lo <= a <= b <= hi <= v.len(),
            t == v@.subrange(a as int, hi as int),
            trim_end(t) == trim_end(v@.subrange(a as int, b as int)),
        decreases b,
    {
        assert(v@.subrange(a as int, b as int).drop_last() =~= v@.subrange(
            a as int,
            b as int - 1,
        ));
        b = b - 1;
    }
    (a, b)
}

/// White space at the start of `a + b` is that of `a`, and, where `a` is
/// all white space, that of `b` too.
pub proof fn lemma_trim_start_concat(a: Seq<char>, b: Seq<char>)
    ensures
        trim_start(a + b) == (if trim_start(a).len() > 0 {
            trim_start(a) + b
        } else {
            trim_start(b)
        }),
    decreases a.len(),
{
    if a.len() == 0 {
        assert(a + b =~= b);
    } else {
        assert((a + b)[0] == a[0]);
        if is_white_space(a[0]) {
            assert((a + b).drop_first() =~= a.drop_first() + b);
            lemma_trim_start_concat(a.drop_first(), b);
        }
    }
}

/// What trimming the start of `s` leaves is empty or starts with a
/// character that is not white space.
pub proof fn lemma_trim_start_first(s: Seq<char>)
    ensures
        trim_start(s).len() == 0 || !is_white_space(trim_start(s)[0]),
    decreases s.len(),
{
    if s.len() > 0 && is_white_space(s[0]) {
        lemma_trim_start_first(s.drop_first());
    }
}

/// Trimming the end of `s` leaves a start of `s` that is empty or ends with
/// a character that is not white space, and that is not empty where `s`
/// starts with such a character.
pub proof fn lemma_trim_end_prefix(s: Seq<char>)
    ensures
        trim_end(s).len() <= s.len(),
        trim_end(s) == s.take(trim_end(s).len() as int),
        trim_end(s).len() == 0 || !is_white_space(trim_end(s).last()),
        s.len() > 0 && !is_white_space(s[0]) ==> trim_end(s).len() > 0,
    decreases s.len(),
{
    if s.len() > 0 && is_white_space(s.last()) {
        lemma_trim_end_prefix(s.drop_last());
        assert(s.drop_last().take(trim_end(s).len() as int) =~= s.take(trim_end(s).len() as int));
    } else {
        assert(s.take(s.len() as int) =~= s);
    }
}

/// A text that trimming leaves as it is is empty, or starts and ends with
/// characters that are not white space.
pub proof fn lemma_trimmed_ends(s: Seq<char>)
    requires
        s == trim(s),
    ensures
        s.len() == 0 || (!is_white_space(s[0]) && !is_white_space(s.last())),
{
    let t = trim_start(s);
    lemma_trim_start_first(s);
    lemma_trim_end_prefix(t);
    if s.len() > 0 {
        assert(trim_end(t)[0] == t[0]);
    }
}

proof fn lemma_trim_start_suffix(s: Seq<char>)
    ensures
        trim_start(s).len() <= s.len(),
        trim_start(s) == s.subrange(s.len() - trim_start(s).len(), s.len() as int),
        forall|j: int| 0 <= j < s.len() - trim_start(s).len() ==> is_white_space(#[trigger] s[j]),
    decreases s.len(),
{
    if s.len() > 0 && is_white_space(s[0]) {
        lemma_trim_start_suffix(s.drop_first());
        let k = s.len() - trim_start(s).len();
        assert(s.drop_first().subrange(k - 1, s.len() - 1) =~= s.subrange(k, s.len() as int));
        assert forall|j: int| 0 <= j < k implies is_white_space(#[trigger] s[j]) by {
            if j > 0 {
                assert(s[j] == s.drop_first()[j - 1]);
            }
        }
    } else {
        assert(s.subrange(0, s.len() as int) =~= s);
    }
}

proof fn lemma_trim_end_rest_white(s: Seq<char>)
    ensures
        forall|j: int| trim_end(s).len() <= j < s.len() ==> is_white_space(#[trigger] s[j]),
    decreases s.len(),
{
    lemma_trim_end_prefix(s);
    if s.len() > 0 && is_white_space(s.last()) {
        lemma_trim_end_rest_white(s.drop_last());
        assert forall|j: int| trim_end(s).len() <= j < s.len() implies is_white_space(#[trigger] s[j]) by {
            if j < s.len() - 1 {
                assert(s[j] == s.drop_last()[j]);
            }
        }
    }
}

/// Trimming keeps a piece of the text, in place, and takes off only white
/// space, all of it, at both ends: what is left is empty or starts and
/// ends with characters that are not white space.
pub proof fn lemma_trim_takes_off_white_ends(s: Seq<char>)
    ensures
        trim(s).len() == 0 || (!is_white_space(trim(s)[0]) && !is_white_space(trim(s).last())),
        exists|a: int|
            #![trigger s.subrange(a, a + trim(s).len())]
            0 <= a && a + trim(s).len() <= s.len() && s.subrange(a, a + trim(s).len()) == trim(s)
                && (forall|j: int| 0 <= j < a ==> is_white_space(#[trigger] s[j])) && (forall|j: int|
                a + trim(s).len() <= j < s.len() ==> is_white_space(#[trigger] s[j])),
{
    let t = trim_start(s);
    let u = trim(s);
    lemma_trim_start_suffix(s);
    lemma_trim_start_first(s);
    lemma_trim_end_prefix(t);
    lemma_trim_end_rest_white(t);
    let a = s.len() - t.len();
    if u.len() > 0 {
        assert(u[0] == t[0]);
    }
    assert(s.subrange(a, a + u.len()) =~= u) by {
        assert forall|j: int| 0 <= j < u.len() implies s.subrange(a, a + u.len())[j] == u[j] by {
            assert(u[j] == t[j]);
            assert(t[j] == s[a + j]);
        }
    }
    assert forall|j: int| a + u.len() <= j < s.len() implies is_white_space(#[trigger] s[j]) by {
        assert(s[j] == t[j - a]);
    }
    assert(0 <= a && a + u.len() <= s.len() && s.subrange(a, a + u.len()) == u && (forall|j: int|
        0 <= j < a ==> is_white_space(#[trigger] s[j])) && (forall|j: int|
        a + u.len() <= j < s.len() ==> is_white_space(#[trigger] s[j])));
}

/// A text that starts and ends with characters that are not white space
/// is left as it is by trimming.
pub proof fn lemma_trim_keeps(s: Seq<char>)
    requires
        s.len() > 0,
        !is_white_space(s[0]),
        !is_white_space(s.last()),
    ensures
        trim(s) == s,
{
}

/// The first character of `a + b`, trimmed, where `b` starts with a
/// character that is not white space: the first one of `a` that is not
/// white space, if any, and else the first of `b`.
pub proof fn lemma_trim_first_char(a: Seq<char>, b: Seq<char>)
    requires
        b.len() > 0,
        !is_white_space(b[0]),
    ensures
        trim(a + b).len() > 0,
        trim(a + b)[0] == (if trim_start(a).len() > 0 {
            trim_start(a)[0]
        } else {
            b[0]
        }),
{
    lemma_trim_start_concat(a, b);
    lemma_trim_start_first(a);
    let t = trim_start(a + b);
    if trim_start(a).len() > 0 {
        assert(t[0] == trim_start(a)[0]);
    } else {
        assert(trim_start(b) == b);
    }
    lemma_trim_end_prefix(t);
    assert(trim_end(t)[0] == t[0]);
}

// ---------------------------------------------------------------------------
// Fields separated by "; "
// ---------------------------------------------------------------------------

/// Whether the separator `"; "` starts at index `i` of `s`.
pub open spec fn separator_at(s: Seq<char>, i: int) -> bool {
    0 <= i && i + 1 < s.len() && s[i] == ';' && s[i + 1] == ' '
}

/// The fields of `s` from a field that starts at `start`, when the
/// separators before index `i` (and after `start`) have all been seen:
/// separators are taken from left to right, each one where it first occurs.
pub open spec fn split_from(s: Seq<char>, start: int, i: int) -> Seq<Seq<char>>
    decreases s.len() - i,
{
    if i >= s.len() {
        seq![s.subrange(start, s.len() as int)]
    } else if separator_at(s, i) {
        seq![s.subrange(start, i)] + split_from(s, i + 2, i + 2)
    } else {
        split_from(s, start, i + 1)
    }
}

/// The fields of `s` that the separator `"; "` delimits.
pub open spec fn split_fields(s: Seq<char>) -> Seq<Seq<char>> {
    split_from(s, 0, 0)
}

/// Whether the separator `"; "` occurs nowhere in `f`.
pub open spec fn no_separator(f: Seq<char>) -> bool {
    forall|i: int| #![trigger f[i]] 0 <= i && i + 1 < f.len() ==> !(f[i] == ';' && f[i + 1] == ' ')
}

proof fn lemma_split_shift(p: Seq<char>, r: Seq<char>, a: int, b: int)
    requires
        0 <= a <= b <= r.len(),
    ensures
        split_from(p + r, p.len() + a, p.len() + b) == split_from(r, a, b),
    decreases r.len() - b,
{
    let s = p + r;
    assert(s.subrange(p.len() + a, s.len() as int) =~= r.subrange(a, r.len() as int));
    if b < r.len() {
        assert(separator_at(s, p.len() + b) == separator_at(r, b)) by {
            if b + 1 < r.len() {
                assert(s[p.len() + b] == r[b]);
                assert(s[p.len() + b + 1] == r[b + 1]);
            }
        }
        if separator_at(r, b) {
            assert(s.subrange(p.len() + a, p.len() + b) =~= r.subrange(a, b));
            lemma_split_shift(p, r, b + 2, b + 2);
        } else {
            lemma_split_shift(p, r, a, b + 1);
        }
    }
}

proof fn lemma_split_walk(s: Seq<char>, start: int, i: int, end: int)
    requires
        0 <= start <= i <= end <= s.len(),
        forall|j: int| i <= j < end ==> !separator_at(s, j),
    ensures
        split_from(s, start, i) == split_from(s, start, end),
    decreases end - i,
{
    if i < end {
        lemma_split_walk(s, start, i + 1, end);
    }
}

/// A text without separator is one field.
pub proof fn lemma_split_single(f: Seq<char>)
    requires
        no_separator(f),
    ensures
        split_fields(f) == seq![f],
{
    assert forall|j: int| 0 <= j < f.len() implies !separator_at(f, j) by {
        if separator_at(f, j) {
            assert(f[j] == ';' && f[j + 1] == ' ');
        }
    }
    lemma_split_walk(f, 0, 0, f.len() as int);
    assert(f.subrange(0, f.len() as int) =~= f);
}

/// A field without separator, the separator, then `r`: that field, then
/// the fields of `r`.
pub proof fn lemma_split_first_field(f: Seq<char>, r: Seq<char>)
    requires
        no_separator(f),
    ensures
        split_fields(f + separator_text() + r) == seq![f] + split_fields(r),
{
    let p = f + separator_text();
    let s = p + r;
    assert(s =~= f + separator_text() + r);
    assert forall|j: int| 0 <= j < f.len() implies !separator_at(s, j) by {
        if j + 1 < f.len() {
            assert(s[j] == f[j] && s[j + 1] == f[j + 1]);
            assert(!(f[j] == ';' && f[j + 1] == ' '));
        } else {
            assert(s[j + 1] == ';');
        }
    }
    lemma_split_walk(s, 0, 0, f.len() as int);
    assert(separator_at(s, f.len() as int));
    assert(s.subrange(0, f.len() as int) =~= f);
    lemma_split_shift(p, r, 0, 0);
}

/// The fields of `fs` joined into one text, with `"; "` between each two.
pub open spec fn join_fields(fs: Seq<Seq<char>>) -> Seq<char>
    decreases fs.len(),
{
    if fs.len() == 0 {
        Seq::empty()
    } else if fs.len() == 1 {
        fs[0]
    } else {
        fs[0] + seq![';', ' '] + join_fields(fs.drop_first())
    }
}

proof fn lemma_split_from_rejoins(s: Seq<char>, start: int, i: int)
    requires
        0 <= start <= i <= s.len(),
        forall|j: int|
            #![trigger s[j]]
            start <= j && j + 1 < i + 1 && j + 1 < s.len() ==> !(s[j] == ';' && s[j + 1] == ' '),
    ensures
        split_from(s, start, i).len() >= 1,
        join_fields(split_from(s, start, i)) == s.subrange(start, s.len() as int),
        forall|k: int, j: int|
            0 <= k < split_from(s, start, i).len() && 0 <= j && j + 1 < split_from(
                s,
                start,
                i,
            )[k].len() ==> !(#[trigger] split_from(s, start, i)[k][j] == ';' && split_from(
                s,
                start,
                i,
            )[k][j + 1] == ' '),
    decreases s.len() - i,
{
    let fs = split_from(s, start, i);
    if i >= s.len() {
        let f = s.subrange(start, s.len() as int);
        assert(fs == seq![f]);
        assert forall|k: int, j: int| 0 <= k < fs.len() && 0 <= j && j + 1 < fs[k].len() implies !(
        #[trigger] fs[k][j] == ';' && fs[k][j + 1] == ' ') by {
            assert(fs[k][j] == s[start + j]);
            assert(fs[k][j + 1] == s[start + j + 1]);
        }
    } else if separator_at(s, i) {
        lemma_split_from_rejoins(s, i + 2, i + 2);
        let f = s.subrange(start, i);
        let rest = split_from(s, i + 2, i + 2);
        assert(fs == seq![f] + rest);
        assert(fs.drop_first() =~= rest);
        assert(join_fields(fs) == f + seq![';', ' '] + join_fields(rest));
        assert(join_fields(fs) =~= s.subrange(start, s.len() as int));
        assert forall|k: int, j: int| 0 <= k < fs.len() && 0 <= j && j + 1 < fs[k].len() implies !(
        #[trigger] fs[k][j] == ';' && fs[k][j + 1] == ' ') by {
            if k == 0 {
                assert(fs[k][j] == s[start + j]);
                assert(fs[k][j + 1] == s[start + j + 1]);
            } else {
                assert(fs[k] == rest[k - 1]);
                assert(rest[k - 1][j] == fs[k][j]);
            }
        }
    } else {
        lemma_split_from_rejoins(s, start, i + 1);
    }
}

/// The fields of a text are the pieces between the occurrences of `"; "`:
/// none of them holds `;` directly followed by a space, and joining them
/// again with `"; "` gives back the text.
pub proof fn lemma_fields_rejoin(s: Seq<char>)
    ensures
        split_fields(s).len() >= 1,
        join_fields(split_fields(s)) == s,
        forall|k: int, j: int|
            0 <= k < split_fields(s).len() && 0 <= j && j + 1 < split_fields(s)[k].len() ==> !(
            #[trigger] split_fields(s)[k][j] == ';' && split_fields(s)[k][j + 1] == ' '),
{
    lemma_split_from_rejoins(s, 0, 0);
    assert(s.subrange(0, s.len() as int) =~= s);
}

/// Joining fields that do not hold `"; "` with `"; "` and splitting the
/// result gives back the same fields.
pub proof fn lemma_split_of_join(fs: Seq<Seq<char>>)
    requires
        fs.len() >= 1,
        forall|k: int| 0 <= k < fs.len() ==> no_separator(#[trigger] fs[k]),
    ensures
        split_fields(join_fields(fs)) == fs,
    decreases fs.len(),
{
    if fs.len() == 1 {
        assert(no_separator(fs[0]));
        lemma_split_single(fs[0]);
        assert(fs =~= seq![fs[0]]);
    } else {
        let rest = fs.drop_first();
        assert forall|k: int| 0 <= k < rest.len() implies no_separator(#[trigger] rest[k]) by {
            assert(rest[k] == fs[k + 1]);
        }
        lemma_split_of_join(rest);
        assert(no_separator(fs[0]));
        lemma_split_first_field(fs[0], join_fields(rest));
        assert(separator_text() == seq![';', ' ']);
        assert(seq![fs[0]] + rest =~= fs);
    }
}

/// A text in which `;` is never directly followed by a space is a single
/// field, whatever else it holds.
pub proof fn lemma_text_without_separator_is_one_field(s: Seq<char>)
    requires
        forall|j: int| #![trigger s[j]] 0 <= j && j + 1 < s.len() ==> !(s[j] == ';' && s[j + 1] == ' '),
    ensures
        split_fields(s) == seq![s],
{
    lemma_split_single(s);
}

/// The separator of fields, `"; "`.
pub open spec fn separator_text() -> Seq<char> {
    seq![';', ' ']
}

/// The bounds, in `v`, of each field of `v` that the separator `"; "`
/// delimits, in order.
pub fn split_bounds(v: &Vec<char>) -> (b: Vec<(usize, usize)>)
    ensures
        b.len() == split_fields(v@).len(),
        forall|k: int|
            #![trigger b@[k]]
            0 <= k < b.len() ==> {
                &&& b@[k].0 <= b@[k].1 <= v.len()
                &&& v@.subrange(b@[k].0 as int, b@[k].1 as int) == split_fields(v@)[k]
            },
{
    let n = v.len();
    let mut b: Vec<(usize, usize)> = Vec::new();
    let mut start: usize = 0;
    let mut i: usize = 0;
    while i < n
        invariant
            start <= i <= n == v.len(),
            forall|k: int| 0 <= k < b.len() ==> (#[trigger] b@[k]).0 <= b@[k].1 <= n,
            Seq::new(b.len() as nat, |k: int| v@.subrange(b@[k].0 as int, b@[k].1 as int))
                + split_from(v@, start as int, i as int) == split_fields(v@),
        decreases n - i,
    {
        let ghost done = Seq::new(
            b.len() as nat,
            |k: int| v@.subrange(b@[k].0 as int, b@[k].1 as int),
        );
        if i + 1 < n && v[i] == ';' && v[i + 1] == ' ' {
            b.push((start, i));
            i = i + 2;
            start = i;
            let ghost now = Seq::new(
                b.len() as nat,
                |k: int| v@.subrange(b@[k].0 as int, b@[k].1 as int),
            );
            assert(now =~= done + seq![v@.subrange(b@[b.len() - 1].0 as int, i as int - 2)]);
        } else {
            i = i + 1;
        }
    }
    b.push((start, n));
    let ghost fin = Seq::new(
        b.len() as nat,
        |k: int| v@.subrange(b@[k].0 as int, b@[k].1 as int),
    );
    assert(fin =~= split_fields(v@));
    assert forall|k: int| 0 <= k < b.len() implies v@.subrange(
        #[trigger] b@[k].0 as int,
        b@[k].1 as int,
    ) == split_fields(v@)[k] by {
        assert(fin[k] == v@.subrange(b@[k].0 as int, b@[k].1 as int));
    }
    b
}

// ---------------------------------------------------------------------------
// Unsigned 16-bit numbers in decimal
// ---------------------------------------------------------------------------

/// Whether `c` is one of the ASCII digits `0` to `9`.
pub open spec fn is_digit(c: char) -> bool {
    '0' <= c <= '9'
}

/// The value of the ASCII digit `c`.
pub open spec fn digit_value(c: char) -> nat {
    (c as int - '0' as int) as nat
}

/// The value of the string of ASCII digits `d`, read in base ten.
pub open spec fn digits_value(d: Seq<char>) -> nat
    decreases d.len(),
{
    if d.len() == 0 {
        0
    } else {
        digits_value(d.drop_last()) * 10 + digit_value(d.last())
    }
}

/// `s` without a leading `+` sign, if it has one.
pub open spec fn unsigned_part(s: Seq<char>) -> Seq<char> {
    if s.len() > 0 && s[0] == '+' {
        s.drop_first()
    } else {
        s
    }
}

/// Whether `s` is the text of an unsigned 16-bit number: an optional `+`
/// followed by one or more ASCII digits whose value is at most 65535.
/// Nothing else may stand in it, white space included.
pub open spec fn parses_as_u16(s: Seq<char>) -> bool {
    let d = unsigned_part(s);
    &&& d.len() > 0
    &&& forall|i: int| 0 <= i < d.len() ==> is_digit(#[trigger] d[i])
    &&& digits_value(d) <= 65535
}

/// The number that `s` is the text of, where `parses_as_u16(s)`.
pub open spec fn u16_value(s: Seq<char>) -> u16 {
    digits_value(unsigned_part(s)) as u16
}

proof fn lemma_digits_value_grows(d: Seq<char>, k: int)
    requires
        0 <= k <= d.len(),
    ensures
        digits_value(d.subrange(0, k)) <= digits_value(d),
    decreases d.len() - k,
{
    if k < d.len() {
        lemma_digits_value_grows(d, k + 1);
        assert(d.subrange(0, k + 1).drop_last() =~= d.subrange(0, k));
    } else {
        assert(d.subrange(0, k) =~= d);
    }
}

/// The unsigned 16-bit number whose text stands in `v` between `lo` and
/// `hi`, or `None` where that text is not the text of such a number.
pub fn parse_u16_in(v: &Vec<char>, lo: usize, hi: usize) -> (r: Option<u16>)
    requires
        lo <= hi <= v.len(),
    ensures
        r is Some <==> parses_as_u16(v@.subrange(lo as int, hi as int)),
        r is Some ==> r->0 == u16_value(v@.subrange(lo as int, hi as int)),
{
    let ghost s = v@.subrange(lo as int, hi as int);
    let mut i = lo;
    if i < hi && v[i] == '+' {
        i = i + 1;
    }
    let start = i;
    let ghost d = v@.subrange(start as int, hi as int);
    assert(unsigned_part(s) =~= d);
    if start == hi {
        return None;
    }
    let mut acc: u32 = 0;
    while i < hi
        invariant
            lo <= start <= i <= hi <= v.len(),
            d == v@.subrange(start as int, hi as int),
            d == unsigned_part(s),
            s == v@.subrange(lo as int, hi as int),
            acc <= 65535,
            acc == digits_value(v@.subrange(start as int, i as int)),
            forall|j: int| start <= j < i ==> is_digit(#[trigger] v@[j]),
        decreases hi - i,
    {
        let c = v[i];
        if !('0' <= c && c <= '9') {
            assert(d[i - start] == c);
            return None;
        }
        let digit = (c as u32) - ('0' as u32);
        assert(v@.subrange(start as int, i as int + 1).drop_last() =~= v@.subrange(
            start as int,
            i as int,
        ));
        acc = acc * 10 + digit;
        i = i + 1;
        if acc > 65535 {
            proof {
                lemma_digits_value_grows(d, i - start);
                assert(d.subrange(0, i - start) =~= v@.subrange(start as int, i as int));
            }
            return None;
        }
    }
    assert(v@.subrange(start as int, i as int) =~= d);
    assert forall|j: int| 0 <= j < d.len() implies is_digit(#[trigger] d[j]) by {
        assert(d[j] == v@[start + j]);
    }
    Some(acc as u16)
}

/// The unsigned 16-bit number that `text` is the text of, or `None` where
/// it is not the text of such a number.
pub fn parse_u16(text: &str) -> (r: Option<u16>)
    ensures
        r is Some <==> parses_as_u16(text@),
        r is Some ==> r->0 == u16_value(text@),
{
    let v = chars_of(text);
    assert(v@.subrange(0, v@.len() as int) =~= v@);
    parse_u16_in(&v, 0, v.len())
}

/// The ASCII digit whose value is `d`, for `d` below ten.
pub open spec fn digit_char(d: nat) -> char {
    if d == 0 {
        '0'
    } else if d == 1 {
        '1'
    } else if d == 2 {
        '2'
    } else if d == 3 {
        '3'
    } else if d == 4 {
        '4'
    } else if d == 5 {
        '5'
    } else if d == 6 {
        '6'
    } else if d == 7 {
        '7'
    } else if d == 8 {
        '8'
    } else {
        '9'
    }
}

/// The decimal text of `n`: its digits, most significant first, with no
/// leading zero (zero itself is `0`).
pub open spec fn decimal_text(n: nat) -> Seq<char>
    decreases n,
{
    if n < 10 {
        seq![digit_char(n)]
    } else {
        decimal_text(n / 10) + seq![digit_char(n % 10)]
    }
}

/// The decimal text of a number reads back as that number.
pub proof fn lemma_decimal_text_reads_back(n: nat)
    ensures
        decimal_text(n).len() > 0,
        forall|i: int| 0 <= i < decimal_text(n).len() ==> is_digit(#[trigger] decimal_text(n)[i]),
        digits_value(decimal_text(n)) == n,
        decimal_text(n)[0] != '+',
    decreases n,
{
    if n >= 10 {
        lemma_decimal_text_reads_back(n / 10);
        let t = decimal_text(n);
        assert(t.drop_last() =~= decimal_text(n / 10));
        assert(t.last() == digit_char(n % 10));
        assert(digit_value(digit_char(n % 10)) == n % 10);
        assert((n / 10) * 10 + n % 10 == n) by (nonlinear_arith);
        assert(t.len() > 0);
        assert(digits_value(t) == digits_value(t.drop_last()) * 10 + digit_value(t.last()));
        assert forall|i: int| 0 <= i < t.len() implies is_digit(#[trigger] t[i]) by {
            if i < t.len() - 1 {
                assert(t[i] == decimal_text(n / 10)[i]);
            }
        }
    } else {
        let t = decimal_text(n);
        assert(t.drop_last() =~= Seq::<char>::empty());
        assert(digits_value(t) == digits_value(t.drop_last()) * 10 + digit_value(t.last()));
    }
}

/// A decimal text of a 16-bit number is the text of an unsigned 16-bit
/// number, which is that number.
pub proof fn lemma_decimal_text_parses(n: u16)
    ensures
        parses_as_u16(decimal_text(n as nat)),
        u16_value(decimal_text(n as nat)) == n,
{
    lemma_decimal_text_reads_back(n as nat);
    assert(unsigned_part(decimal_text(n as nat)) == decimal_text(n as nat));
}

fn digit_str(d: u16) -> (s: &'static str)
    requires
        d < 10,
    ensures
        s@ == seq![digit_char(d as nat)],
{
    if d == 0 {
        proof {
            reveal_strlit("0");
        }
        "0"
    } else if d == 1 {
        proof {
            reveal_strlit("1");
        }
        "1"
    } else if d == 2 {
        proof {
            reveal_strlit("2");
        }
        "2"
    } else if d == 3 {
        proof {
            reveal_strlit("3");
        }
        "3"
    } else if d == 4 {
        proof {
            reveal_strlit("4");
        }
        "4"
    } else if d == 5 {
        proof {
            reveal_strlit("5");
        }
        "5"
    } else if d == 6 {
        proof {
            reveal_strlit("6");
        }
        "6"
    } else if d == 7 {
        proof {
            reveal_strlit("7");
        }
        "7"
    } else if d == 8 {
        proof {
            reveal_strlit("8");
        }
        "8"
    } else {
        proof {
            reveal_strlit("9");
        }
        "9"
    }
}

/// Appends the decimal text of `n` to `out`.
pub fn push_decimal(out: &mut String, n: u16)
    ensures
        final(out)@ == old(out)@ + decimal_text(n as nat),
    decreases n,
{
    if n >= 10 {
        push_decimal(out, n / 10);
    }
    out.append(digit_str(n % 10));
    assert(out@ =~= old(out)@ + decimal_text(n as nat));
}

} // verus!
