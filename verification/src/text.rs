//! Text utilities on character sequences: line splitting, joining,
//! decimal rendering, trimming and substring search.

use vstd::prelude::*;

verus! {

broadcast use vstd::string::group_string_axioms;

// ---------------------------------------------------------------------
// Specifications
// ---------------------------------------------------------------------

/// Position of the first line feed in `s`, or `s.len()` when there is none.
pub open spec fn first_newline(s: Seq<char>) -> nat
    decreases s.len(),
{
    if s.len() == 0 {
        0
    } else if s[0] == '\n' {
        0
    } else {
        1 + first_newline(s.drop_first())
    }
}

/// A line taken up to a line feed loses one carriage return before it.
pub open spec fn strip_cr(line: Seq<char>) -> Seq<char> {
    if line.len() > 0 && line.last() == '\r' {
        line.drop_last()
    } else {
        line
    }
}

/// The lines of `s`, as `str::lines` yields them: lines end at `\n` or
/// `\r\n`, the terminator is not part of the line, and a final line
/// terminator does not start an empty last line.
pub open spec fn lines(s: Seq<char>) -> Seq<Seq<char>>
    decreases s.len(),
{
    if s.len() == 0 {
        seq![]
    } else {
        let i = first_newline(s);
        if i < s.len() {
            seq![strip_cr(s.take(i as int))] + lines(s.skip(i + 1 as int))
        } else {
            seq![s]
        }
    }
}

/// The parts joined by `sep`, as `[String]::join` does.
pub open spec fn join(parts: Seq<Seq<char>>, sep: Seq<char>) -> Seq<char>
    decreases parts.len(),
{
    if parts.len() == 0 {
        seq![]
    } else if parts.len() == 1 {
        parts[0]
    } else {
        join(parts.drop_last(), sep) + sep + parts.last()
    }
}

/// The character of a decimal digit.
pub open spec fn digit_char(d: nat) -> char {
    if d == 0 { '0' } else if d == 1 { '1' } else if d == 2 { '2' } else if d == 3 { '3' }
    else if d == 4 { '4' } else if d == 5 { '5' } else if d == 6 { '6' } else if d == 7 { '7' }
    else if d == 8 { '8' } else { '9' }
}

/// The decimal rendering of a natural number, without leading zeros.
pub open spec fn decimal(n: nat) -> Seq<char>
    decreases n,
{
    if n < 10 {
        seq![digit_char(n)]
    } else {
        decimal(n / 10).push(digit_char(n % 10))
    }
}

/// The decimal rendering of an integer, with a leading `-` when negative.
pub open spec fn signed_decimal(n: int) -> Seq<char> {
    if n < 0 {
        seq!['-'] + decimal((-n) as nat)
    } else {
        decimal(n as nat)
    }
}

// ---------------------------------------------------------------------
// Executable functions
// ---------------------------------------------------------------------

/// Appends one character to a string.
#[verifier::external_body]
pub(crate) fn push_char(s: &mut String, c: char)
    ensures
        final(s)@ == old(s)@.push(c),
{
    s.push(c);
}

/// The characters of `s`, in order.
pub fn to_chars(s: &str) -> (r: Vec<char>)
    ensures
        r@ == s@,
{
    let mut r: Vec<char> = Vec::new();
    for c in it: s.chars()
        invariant
            r@ == it.seq().take(it.index()),
            it.seq() == s@,
    {
        r.push(c);
    }
    r
}

/// The string made of `chars[lo..hi]`.
pub fn string_from(chars: &Vec<char>, lo: usize, hi: usize) -> (r: String)
    requires
        lo <= hi <= chars.len(),
    ensures
        r@ == chars@.subrange(lo as int, hi as int),
{
    let mut r = String::new();
    let mut i = lo;
    while i < hi
        invariant
            lo <= i <= hi <= chars.len(),
            r@ == chars@.subrange(lo as int, i as int),
        decreases hi - i,
    {
        push_char(&mut r, chars[i]);
        i = i + 1;
        assert(r@ =~= chars@.subrange(lo as int, i as int));
    }
    r
}

proof fn lemma_first_newline(t: Seq<char>, k: int)
    requires
        0 <= k <= t.len(),
        forall|j: int| 0 <= j < k ==> t[j] != '\n',
        k == t.len() || t[k] == '\n',
    ensures
        first_newline(t) == k,
    decreases k,
{
    if k > 0 {
        lemma_first_newline(t.drop_first(), k - 1);
    }
}

/// The lines of `s` (see [`lines`]).
pub fn split_lines(s: &str) -> (r: Vec<String>)
    ensures
        r.deep_view() == lines(s@),
{
    let chars = to_chars(s);
    let n = chars.len();
    let mut out: Vec<String> = Vec::new();
    let mut start: usize = 0;
    let mut i: usize = 0;
    assert(s@.skip(0) =~= s@);
    while i < n
        invariant
            n == chars.len(),
            chars@ == s@,
            start <= i <= n,
            forall|j: int| start <= j < i ==> chars@[j] != '\n',
            lines(s@) == out.deep_view() + lines(s@.skip(start as int)),
        decreases n - i,
    {
        if chars[i] == '\n' {
            let end = if i > start && chars[i - 1] == '\r' {
                i - 1
            } else {
                i
            };
            let line = string_from(&chars, start, end);
            proof {
                let t = s@.skip(start as int);
                lemma_first_newline(t, i - start);
                assert(t.take(i - start) =~= s@.subrange(start as int, i as int));
                assert(t.skip(i - start + 1) =~= s@.skip(i + 1));
                assert(strip_cr(t.take(i - start)) =~= line@);
                assert(lines(t) == seq![line@] + lines(s@.skip(i + 1)));
            }
            let ghost prev = out.deep_view();
            out.push(line);
            assert(out.deep_view() =~= prev.push(line@));
            start = i + 1;
            assert(lines(s@) =~= out.deep_view() + lines(s@.skip(start as int)));
        }
        i = i + 1;
    }
    if start < n {
        let line = string_from(&chars, start, n);
        proof {
            let t = s@.skip(start as int);
            lemma_first_newline(t, n - start);
            assert(t =~= line@);
        }
        let ghost prev = out.deep_view();
        out.push(line);
        assert(out.deep_view() =~= prev.push(line@));
    } else {
        assert(s@.skip(start as int) =~= Seq::<char>::empty());
    }
    assert(lines(s@) =~= out.deep_view());
    out
}

/// `parts[lo..hi]` joined by `sep`.
pub fn join_range(parts: &Vec<String>, lo: usize, hi: usize, sep: &str) -> (r: String)
    requires
        lo <= hi <= parts.len(),
    ensures
        r@ == join(parts.deep_view().subrange(lo as int, hi as int), sep@),
{
    let mut r = String::new();
    let mut j = lo;
    while j < hi
        invariant
            lo <= j <= hi <= parts.len(),
            r@ == join(parts.deep_view().subrange(lo as int, j as int), sep@),
        decreases hi - j,
    {
        if j > lo {
            r.append(sep);
        }
        r.append(parts[j].as_str());
        proof {
            let dv = parts.deep_view();
            let sub = dv.subrange(lo as int, j + 1);
            assert(sub.drop_last() =~= dv.subrange(lo as int, j as int));
            assert(sub.last() == parts@[j as int]@);
            if j == lo {
                assert(sub.len() == 1);
            }
        }
        j = j + 1;
    }
    r
}

/// All of `parts` joined by `sep`.
pub fn join_all(parts: &Vec<String>, sep: &str) -> (r: String)
    ensures
        r@ == join(parts.deep_view(), sep@),
{
    let r = join_range(parts, 0, parts.len(), sep);
    assert(parts.deep_view().subrange(0, parts.len() as int) =~= parts.deep_view());
    r
}

fn digit(d: usize) -> (c: char)
    requires
        d < 10,
    ensures
        c == digit_char(d as nat),
{
    match d {
        0 => '0',
        1 => '1',
        2 => '2',
        3 => '3',
        4 => '4',
        5 => '5',
        6 => '6',
        7 => '7',
        8 => '8',
        _ => '9',
    }
}

/// The decimal rendering of `n`.
pub fn decimal_string(n: usize) -> (r: String)
    ensures
        r@ == decimal(n as nat),
    decreases n,
{
    if n < 10 {
        let mut r = String::new();
        push_char(&mut r, digit(n));
        assert(r@ =~= decimal(n as nat));
        r
    } else {
        let mut r = decimal_string(n / 10);
        push_char(&mut r, digit(n % 10));
        r
    }
}

/// The decimal rendering of a signed `n`.
pub fn signed_decimal_string(n: i32) -> (r: String)
    ensures
        r@ == signed_decimal(n as int),
{
    if n < 0 {
        let magnitude: usize = if n == i32::MIN {
            2147483648usize
        } else {
            (-n) as usize
        };
        let mut r = String::new();
        push_char(&mut r, '-');
        let digits = decimal_string(magnitude);
        r.append(digits.as_str());
        r
    } else {
        decimal_string(n as usize)
    }
}


/// Whether `a` and `b` hold the same text.
pub fn same_text(a: &str, b: &str) -> (r: bool)
    ensures
        r == (a@ == b@),
{
    a.to_owned() == b.to_owned()
}


/// Number of positions at which a non-empty `p` occurs in `s`, overlapping
/// occurrences included ("aa" occurs twice in "aaa").
pub open spec fn count_occurrences(s: Seq<char>, p: Seq<char>) -> nat
    decreases s.len(),
{
    if p.len() == 0 || s.len() < p.len() {
        0
    } else {
        (if s.take(p.len() as int) == p {
            1nat
        } else {
            0nat
        }) + count_occurrences(s.drop_first(), p)
    }
}

/// Position of the leftmost occurrence of `p` in `s`, or -1; the empty
/// text occurs at 0.
pub open spec fn first_match(s: Seq<char>, p: Seq<char>) -> int
    decreases s.len(),
{
    if p.len() == 0 {
        0
    } else if s.len() < p.len() {
        -1
    } else if s.take(p.len() as int) == p {
        0
    } else {
        let r = first_match(s.drop_first(), p);
        if r < 0 {
            -1
        } else {
            r + 1
        }
    }
}

/// `s` with its leftmost occurrence of `p` replaced by `q`, as
/// `str::replacen(p, q, 1)` gives (an empty `p` puts `q` in front).
pub open spec fn replace_first(s: Seq<char>, p: Seq<char>, q: Seq<char>) -> Seq<char> {
    let i = first_match(s, p);
    if i < 0 {
        s
    } else {
        s.take(i) + q + s.skip(i + p.len())
    }
}

/// Whether `p` occurs in `s` at `i`.
fn occurs_at(s: &Vec<char>, p: &Vec<char>, i: usize) -> (b: bool)
    requires
        i + p.len() <= s.len(),
    ensures
        b == (s@.subrange(i as int, i + p.len()) == p@),
{
    let m = p.len();
    let mut k: usize = 0;
    while k < m
        invariant
            m == p.len(),
            i + m <= s.len(),
            k <= m,
            forall|j: int| 0 <= j < k ==> s@[i + j] == p@[j],
        decreases m - k,
    {
        if s[i + k] != p[k] {
            assert(s@.subrange(i as int, i + m)[k as int] != p@[k as int]);
            return false;
        }
        k = k + 1;
    }
    assert(s@.subrange(i as int, i + m) =~= p@);
    true
}

/// The number of positions at which a non-empty `p` occurs in `s` and
/// the leftmost of them.
pub(crate) fn find_occurrences(s: &Vec<char>, p: &Vec<char>) -> (r: (usize, Option<usize>))
    requires
        p.len() > 0,
    ensures
        r.0 == count_occurrences(s@, p@),
        match r.1 {
            Some(f) => first_match(s@, p@) == f,
            None => first_match(s@, p@) == -1,
        },
{
    let n = s.len();
    let m = p.len();
    let mut count: usize = 0;
    let mut first: Option<usize> = None;
    let mut i: usize = 0;
    assert(s@.skip(0) =~= s@);
    while m <= n - i
        invariant
            n == s.len(),
            m == p.len(),
            m > 0,
            i <= n,
            count <= i,
            count_occurrences(s@, p@) == count + count_occurrences(s@.skip(i as int), p@),
            match first {
                Some(f) => first_match(s@, p@) == f,
                None => {
                    let r = first_match(s@.skip(i as int), p@);
                    first_match(s@, p@) == if r < 0 {
                        -1
                    } else {
                        r + i
                    }
                },
            },
        decreases n - i,
    {
        let t = Ghost(s@.skip(i as int));
        assert(t@.take(m as int) =~= s@.subrange(i as int, i + m));
        assert(t@.drop_first() =~= s@.skip(i + 1));
        if occurs_at(s, p, i) {
            if first.is_none() {
                first = Some(i);
            }
            count = count + 1;
        }
        i = i + 1;
    }
    (count, first)
}

/// `s` with its leftmost occurrence of `p` replaced by `q`.
pub fn replace_first_occurrence(s: &str, p: &str, q: &str) -> (r: String)
    ensures
        r@ == replace_first(s@, p@, q@),
{
    if p.is_empty() {
        let mut r = q.to_owned();
        r.append(s);
        assert(r@ =~= replace_first(s@, p@, q@));
        return r;
    }
    let sc = to_chars(s);
    let pc = to_chars(p);
    let (_, first) = find_occurrences(&sc, &pc);
    match first {
        None => s.to_owned(),
        Some(f) => {
            proof {
                lemma_first_match_fits(s@, p@);
            }
            assert(f + pc.len() <= sc.len());
            let mut r = string_from(&sc, 0, f);
            r.append(q);
            let rest = string_from(&sc, f + pc.len(), sc.len());
            r.append(rest.as_str());
            assert(r@ =~= replace_first(s@, p@, q@));
            r
        },
    }
}

/// A leftmost occurrence lies inside the text.
pub proof fn lemma_first_match_fits(s: Seq<char>, p: Seq<char>)
    ensures
        first_match(s, p) >= 0 ==> first_match(s, p) + p.len() <= s.len()
            && s.subrange(first_match(s, p), first_match(s, p) + p.len()) == p,
    decreases s.len(),
{
    if p.len() == 0 {
        assert(s.subrange(0, 0) =~= p);
    } else if s.len() < p.len() {
    } else if s.take(p.len() as int) == p {
        assert(s.subrange(0, p.len() as int) =~= s.take(p.len() as int));
    } else {
        lemma_first_match_fits(s.drop_first(), p);
        let r = first_match(s.drop_first(), p);
        if r >= 0 {
            assert(s.subrange(r + 1, r + 1 + p.len()) =~= s.drop_first().subrange(r, r + p.len()));
        }
    }
}


/// Whether `c` has the Unicode `White_Space` property, as
/// `char::is_whitespace` decides.
pub open spec fn is_white_space(c: char) -> bool {
    let u = c as u32;
    ||| 0x09 <= u <= 0x0D
    ||| u == 0x20
    ||| u == 0x85
    ||| u == 0xA0
    ||| u == 0x1680
    ||| 0x2000 <= u <= 0x200A
    ||| u == 0x2028
    ||| u == 0x2029
    ||| u == 0x202F
    ||| u == 0x205F
    ||| u == 0x3000
}

/// `s` without its leading white space.
pub open spec fn trim_start(s: Seq<char>) -> Seq<char>
    decreases s.len(),
{
    if s.len() > 0 && is_white_space(s[0]) {
        trim_start(s.drop_first())
    } else {
        s
    }
}

/// `s` without its trailing white space.
pub open spec fn trim_end(s: Seq<char>) -> Seq<char>
    decreases s.len(),
{
    if s.len() > 0 && is_white_space(s.last()) {
        trim_end(s.drop_last())
    } else {
        s
    }
}

/// `s` without leading and trailing white space, as `str::trim` gives.
pub open spec fn trim(s: Seq<char>) -> Seq<char> {
    trim_end(trim_start(s))
}

/// Whether `c` is white space (see [`is_white_space`]).
pub fn white_space(c: char) -> (b: bool)
    ensures
        b == is_white_space(c),
{
    let u = c as u32;
    (0x09 <= u && u <= 0x0D) || u == 0x20 || u == 0x85 || u == 0xA0 || u == 0x1680 || (0x2000
        <= u && u <= 0x200A) || u == 0x2028 || u == 0x2029 || u == 0x202F || u == 0x205F || u
        == 0x3000
}

/// `s` without leading and trailing white space.
pub fn trimmed(s: &str) -> (r: String)
    ensures
        r@ == trim(s@),
{
    let cs = to_chars(s);
    let n = cs.len();
    let mut a: usize = 0;
    assert(s@.skip(0) =~= s@);
    while a < n && white_space(cs[a])
        invariant
            n == cs.len(),
            cs@ == s@,
            a <= n,
            trim_start(s@) == trim_start(s@.skip(a as int)),
        decreases n - a,
    {
        assert(s@.skip(a as int).drop_first() =~= s@.skip(a + 1));
        a = a + 1;
    }
    assert(trim_start(s@) =~= s@.subrange(a as int, n as int));
    let mut b: usize = n;
    while b > a && white_space(cs[b - 1])
        invariant
            n == cs.len(),
            cs@ == s@,
            a <= b <= n,
            trim_end(s@.subrange(a as int, n as int)) == trim_end(s@.subrange(a as int, b as int)),
        decreases b,
    {
        assert(s@.subrange(a as int, b as int).drop_last() =~= s@.subrange(a as int, b - 1));
        b = b - 1;
    }
    string_from(&cs, a, b)
}


/// Number of line feeds in `s`.
pub open spec fn newline_count(s: Seq<char>) -> nat
    decreases s.len(),
{
    if s.len() == 0 {
        0
    } else {
        newline_count(s.drop_last()) + if s.last() == '\n' {
            1nat
        } else {
            0nat
        }
    }
}

/// Line feeds of a concatenation add up.
pub proof fn lemma_newline_count_concat(a: Seq<char>, b: Seq<char>)
    ensures
        newline_count(a + b) == newline_count(a) + newline_count(b),
    decreases b.len(),
{
    if b.len() > 0 {
        lemma_newline_count_concat(a, b.drop_last());
        assert((a + b).drop_last() =~= a + b.drop_last());
    } else {
        assert(a + b =~= a);
    }
}

/// A text without line feeds counts none.
pub proof fn lemma_newline_count_none(s: Seq<char>)
    requires
        forall|j: int| 0 <= j < s.len() ==> s[j] != '\n',
    ensures
        newline_count(s) == 0,
    decreases s.len(),
{
    if s.len() > 0 {
        lemma_newline_count_none(s.drop_last());
    }
}

/// [`first_newline`] is the position of the first line feed, if any.
pub proof fn lemma_first_newline_props(s: Seq<char>)
    ensures
        first_newline(s) <= s.len(),
        forall|j: int| 0 <= j < first_newline(s) ==> s[j] != '\n',
        first_newline(s) < s.len() ==> s[first_newline(s) as int] == '\n',
    decreases s.len(),
{
    if s.len() > 0 && s[0] != '\n' {
        lemma_first_newline_props(s.drop_first());
        assert forall|j: int| 0 <= j < first_newline(s) implies s[j] != '\n' by {
            if j > 0 {
                assert(s[j] == s.drop_first()[j - 1]);
            }
        }
    }
}

/// No line of [`lines`] holds a line feed.
pub proof fn lemma_lines_have_no_newline(s: Seq<char>)
    ensures
        forall|k: int, j: int|
            0 <= k < lines(s).len() && 0 <= j < lines(s)[k].len() ==> lines(s)[k][j] != '\n',
    decreases s.len(),
{
    if s.len() > 0 {
        let i = first_newline(s);
        lemma_first_newline_props(s);
        if i < s.len() {
            lemma_lines_have_no_newline(s.skip(i + 1 as int));
            let head = strip_cr(s.take(i as int));
            assert forall|j: int| 0 <= j < head.len() implies head[j] != '\n' by {
                assert(head[j] == s[j]);
            }
            assert forall|k: int, j: int|
                0 <= k < lines(s).len() && 0 <= j < lines(s)[k].len() implies lines(s)[k][j]
                != '\n' by {
                if k == 0 {
                    assert(lines(s)[k] == head);
                } else {
                    assert(lines(s)[k] == lines(s.skip(i + 1 as int))[k - 1]);
                }
            }
        }
    }
}

/// A text has at most one more line than line feeds.
pub proof fn lemma_lines_bound(s: Seq<char>)
    ensures
        lines(s).len() <= newline_count(s) + 1,
    decreases s.len(),
{
    if s.len() > 0 {
        let i = first_newline(s);
        lemma_first_newline_props(s);
        if i < s.len() {
            lemma_lines_bound(s.skip(i + 1 as int));
            assert(s =~= s.take(i as int) + seq!['\n'] + s.skip(i + 1 as int));
            lemma_newline_count_concat(s.take(i as int) + seq!['\n'], s.skip(i + 1 as int));
            lemma_newline_count_concat(s.take(i as int), seq!['\n']);
            assert(newline_count(seq!['\n']) == 1) by {
                assert(seq!['\n'].drop_last() =~= Seq::<char>::empty());
                assert(newline_count(Seq::<char>::empty()) == 0);
            }
        }
    }
}

/// Joining parts without line feeds by a line feed adds one per gap.
pub proof fn lemma_join_newline_count(parts: Seq<Seq<char>>)
    requires
        parts.len() > 0,
        forall|k: int, j: int| 0 <= k < parts.len() && 0 <= j < parts[k].len() ==> parts[k][j] != '\n',
    ensures
        newline_count(join(parts, "\n"@)) == parts.len() - 1,
    decreases parts.len(),
{
    reveal_strlit("\n");
    assert(newline_count("\n"@) == 1) by {
        assert("\n"@.drop_last() =~= Seq::<char>::empty());
        assert(newline_count(Seq::<char>::empty()) == 0);
    }
    if parts.len() == 1 {
        lemma_newline_count_none(parts[0]);
    } else {
        lemma_join_newline_count(parts.drop_last());
        let last = parts.last();
        assert forall|j: int| 0 <= j < last.len() implies last[j] != '\n' by {
            assert(last == parts[parts.len() - 1]);
        }
        lemma_newline_count_none(last);
        lemma_newline_count_concat(join(parts.drop_last(), "\n"@) + "\n"@, last);
        lemma_newline_count_concat(join(parts.drop_last(), "\n"@), "\n"@);
    }
}

/// A decimal rendering holds no line feed.
pub proof fn lemma_decimal_no_newline(n: nat)
    ensures
        newline_count(decimal(n)) == 0,
    decreases n,
{
    if n < 10 {
        assert(decimal(n).drop_last() =~= Seq::<char>::empty());
        assert(newline_count(Seq::<char>::empty()) == 0);
        assert(decimal(n).last() == digit_char(n));
    } else {
        lemma_decimal_no_newline(n / 10);
        assert(decimal(n).drop_last() =~= decimal(n / 10));
        assert(decimal(n).last() == digit_char(n % 10));
    }
}


/// A text with a single line feed counts one.
pub proof fn lemma_newline_count_single(s: Seq<char>, k: int)
    requires
        0 <= k < s.len(),
        s[k] == '\n',
        forall|j: int| 0 <= j < s.len() && j != k ==> s[j] != '\n',
    ensures
        newline_count(s) == 1,
{
    let a = s.take(k);
    let b = s.skip(k + 1);
    assert(s =~= a + seq!['\n'] + b);
    assert forall|j: int| 0 <= j < a.len() implies a[j] != '\n' by {
        assert(a[j] == s[j]);
    }
    assert forall|j: int| 0 <= j < b.len() implies b[j] != '\n' by {
        assert(b[j] == s[k + 1 + j]);
    }
    lemma_newline_count_none(a);
    lemma_newline_count_none(b);
    lemma_newline_count_concat(a + seq!['\n'], b);
    lemma_newline_count_concat(a, seq!['\n']);
    assert(seq!['\n'].drop_last() =~= Seq::<char>::empty());
    assert(newline_count(Seq::<char>::empty()) == 0);
}

/// Joining onto a first part.
proof fn lemma_join_prepend(a: Seq<char>, parts: Seq<Seq<char>>, sep: Seq<char>)
    requires
        parts.len() > 0,
    ensures
        join(seq![a] + parts, sep) == a + sep + join(parts, sep),
    decreases parts.len(),
{
    let all = seq![a] + parts;
    if parts.len() == 1 {
        assert(all.drop_last() =~= seq![a]);
        assert(all.last() == parts[0]);
        assert(join(seq![a], sep) == a);
        assert(join(parts, sep) == parts[0]);
        assert(join(all, sep) == join(all.drop_last(), sep) + sep + all.last());
    } else {
        lemma_join_prepend(a, parts.drop_last(), sep);
        assert(all.drop_last() =~= seq![a] + parts.drop_last());
        assert(all.last() == parts.last());
        assert(join(all, sep) == join(all.drop_last(), sep) + sep + all.last());
        assert(join(parts, sep) == join(parts.drop_last(), sep) + sep + parts.last());
        assert(a + sep + join(parts.drop_last(), sep) + sep + parts.last() =~= a + sep + (join(
            parts.drop_last(),
            sep,
        ) + sep + parts.last()));
    }
}

/// Splitting a text without carriage returns into lines and joining them
/// by line feeds gives the text back, less one final line feed: no line
/// is lost, split or altered.
pub proof fn law_lines_join_back(s: Seq<char>)
    requires
        forall|j: int| 0 <= j < s.len() ==> s[j] != '\r',
    ensures
        join(lines(s), "\n"@) == if s.len() > 0 && s.last() == '\n' {
            s.drop_last()
        } else {
            s
        },
    decreases s.len(),
{
    reveal_strlit("\n");
    if s.len() > 0 {
        let i = first_newline(s);
        lemma_first_newline_props(s);
        if i < s.len() {
            let head = s.take(i as int);
            let t = s.skip(i + 1 as int);
            if head.len() > 0 {
                assert(head.last() == s[i - 1]);
            }
            assert(strip_cr(head) == head);
            assert(s =~= head + seq!['\n'] + t);
            if t.len() == 0 {
                assert(lines(t) =~= Seq::<Seq<char>>::empty());
                assert(lines(s) =~= seq![head]);
                assert(s.drop_last() =~= head);
            } else {
                law_lines_join_back(t);
                assert(lines(s) =~= seq![head] + lines(t));
                assert(lines(t).len() > 0);
                lemma_join_prepend(head, lines(t), "\n"@);
                assert("\n"@ =~= seq!['\n']);
                if t.last() == '\n' {
                    assert(s.drop_last() =~= head + seq!['\n'] + t.drop_last());
                } else {
                    assert(s.last() == t.last());
                }
            }
        } else {
            assert(lines(s) =~= seq![s]);
            assert(s.last() != '\n');
        }
    }
}

} // verus!
