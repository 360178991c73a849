//! Character-level text handling: the pieces of `str` behaviour that the
//! protocol logic relies on (trimming, searching, line splitting, joining,
//! replacing, number formatting and parsing), each with its meaning stated
//! over `Seq<char>`.
use vstd::prelude::*;

verus! {

broadcast use vstd::string::group_string_axioms;

// ---------------------------------------------------------------------
// Specifications
// ---------------------------------------------------------------------

/// Unicode `White_Space`: the characters for which `char::is_whitespace`
/// holds, and which `str::trim` removes.
pub open spec fn is_white_space(c: char) -> bool {
    let u = c as u32;
    ||| 0x09 <= u <= 0x0d
    ||| u == 0x20
    ||| u == 0x85
    ||| u == 0xa0
    ||| u == 0x1680
    ||| 0x2000 <= u <= 0x200a
    ||| u == 0x2028
    ||| u == 0x2029
    ||| u == 0x202f
    ||| u == 0x205f
    ||| u == 0x3000
}

/// `s` with its leading white space removed.
pub open spec fn trim_start(s: Seq<char>) -> Seq<char>
    decreases s.len(),
{
    if s.len() > 0 && is_white_space(s[0]) {
        trim_start(s.drop_first())
    } else {
        s
    }
}

/// `s` with its trailing white space removed.
pub open spec fn trim_end(s: Seq<char>) -> Seq<char>
    decreases s.len(),
{
    if s.len() > 0 && is_white_space(s.last()) {
        trim_end(s.drop_last())
    } else {
        s
    }
}

/// `s` with white space removed at both ends (`str::trim`).
pub open spec fn trim(s: Seq<char>) -> Seq<char> {
    trim_end(trim_start(s))
}

/// `pat` occurs in `s` starting at position `i`.
pub open spec fn matches_at(s: Seq<char>, pat: Seq<char>, i: int) -> bool {
    0 <= i && i + pat.len() <= s.len() && s.subrange(i, i + pat.len()) == pat
}

/// The first position at or after `i` where the non-empty `pat` occurs.
pub open spec fn find_from(s: Seq<char>, pat: Seq<char>, i: nat) -> Option<nat>
    decreases s.len() - i,
{
    if pat.len() == 0 || i + pat.len() > s.len() {
        None
    } else if s.subrange(i as int, (i + pat.len()) as int) == pat {
        Some(i)
    } else {
        find_from(s, pat, i + 1)
    }
}

/// The first position where the non-empty `pat` occurs in `s` (`str::find`).
pub open spec fn find(s: Seq<char>, pat: Seq<char>) -> Option<nat> {
    find_from(s, pat, 0)
}

/// A line without its carriage return: the `\r` of a `\r\n` ending.
pub open spec fn strip_cr(l: Seq<char>) -> Seq<char> {
    if l.len() > 0 && l.last() == '\r' {
        l.drop_last()
    } else {
        l
    }
}

/// Scanning `s` from the left: the lines already ended by a `\n`, and the
/// characters of the line still open.
pub open spec fn lines_acc(s: Seq<char>) -> (Seq<Seq<char>>, Seq<char>)
    decreases s.len(),
{
    if s.len() == 0 {
        (seq![], seq![])
    } else {
        let (done, cur) = lines_acc(s.drop_last());
        if s.last() == '\n' {
            (done.push(strip_cr(cur)), seq![])
        } else {
            (done, cur.push(s.last()))
        }
    }
}

/// The lines of `s` as `str::lines` yields them: split at `\n` or `\r\n`,
/// without the line endings, and with no empty line after a final ending.
pub open spec fn lines(s: Seq<char>) -> Seq<Seq<char>> {
    let (done, cur) = lines_acc(s);
    if cur.len() > 0 {
        done.push(cur)
    } else {
        done
    }
}

/// The parts of `parts` with `sep` between each two of them (`[T]::join`).
pub open spec fn join(parts: Seq<Seq<char>>, sep: Seq<char>) -> Seq<char>
    decreases parts.len(),
{
    if parts.len() == 0 {
        seq![]
    } else if parts.len() == 1 {
        parts[0]
    } else {
        join(parts.drop_last(), sep) + sep + parts.last()
    }
}

/// The views of a sequence of strings.
pub open spec fn string_views(parts: Seq<String>) -> Seq<Seq<char>> {
    parts.map_values(|p: String| p@)
}

/// The pieces `cs[b.0..b.1]` for each pair of bounds `b`.
pub open spec fn pieces(cs: Seq<char>, bounds: Seq<(usize, usize)>) -> Seq<Seq<char>> {
    bounds.map_values(|b: (usize, usize)| cs.subrange(b.0 as int, b.1 as int))
}

/// `s` with every occurrence of the non-empty `pat` replaced by `rep`,
/// scanning from the left without overlaps (`str::replace`).
pub open spec fn replace(s: Seq<char>, pat: Seq<char>, rep: Seq<char>) -> Seq<char>
    decreases s.len(),
{
    if s.len() == 0 {
        seq![]
    } else if pat.len() > 0 && pat.len() <= s.len() && s.take(pat.len() as int) == pat {
        rep + replace(s.skip(pat.len() as int), pat, rep)
    } else {
        seq![s[0]] + replace(s.skip(1), pat, rep)
    }
}

/// `s` with every trailing `c` removed (`str::trim_end_matches` with a char).
pub open spec fn trim_end_char(s: Seq<char>, c: char) -> Seq<char>
    decreases s.len(),
{
    if s.len() > 0 && s.last() == c {
        trim_end_char(s.drop_last(), c)
    } else {
        s
    }
}

/// The ASCII digit of a value below ten.
pub open spec fn digit_char(d: nat) -> char {
    (48 + d) as char
}

/// The decimal representation of `n`, without leading zeros (`format!("{}", n)`).
pub open spec fn decimal(n: nat) -> Seq<char>
    decreases n,
{
    if n < 10 {
        seq![digit_char(n)]
    } else {
        decimal(n / 10).push(digit_char(n % 10))
    }
}

/// The lower-case hexadecimal digit of a value below sixteen.
pub open spec fn hex_char(d: nat) -> char {
    if d < 10 {
        (48 + d) as char
    } else {
        (87 + d) as char
    }
}

/// The `width` lowest hexadecimal digits of `n`, lower case, zero-padded.
pub open spec fn hex_digits(n: nat, width: nat) -> Seq<char>
    decreases width,
{
    if width == 0 {
        seq![]
    } else {
        hex_digits(n / 16, (width - 1) as nat).push(hex_char(n % 16))
    }
}

/// The value of a run of decimal digits.
pub open spec fn digits_value(s: Seq<char>) -> nat
    decreases s.len(),
{
    if s.len() == 0 {
        0
    } else {
        digits_value(s.drop_last()) * 10 + ((s.last() as nat) - 48) as nat
    }
}

pub open spec fn is_digit(c: char) -> bool {
    '0' <= c <= '9'
}

pub open spec fn all_digits(s: Seq<char>) -> bool {
    forall|i: int| 0 <= i < s.len() ==> is_digit(#[trigger] s[i])
}

/// What `str::parse::<u32>` gives: an optional `+` and then one or more
/// decimal digits whose value fits in a `u32`.
pub open spec fn parse_u32(s: Seq<char>) -> Option<u32> {
    let body = if s.len() > 0 && s[0] == '+' {
        s.drop_first()
    } else {
        s
    };
    if body.len() > 0 && all_digits(body) && digits_value(body) <= u32::MAX {
        Some(digits_value(body) as u32)
    } else {
        None
    }
}

// ---------------------------------------------------------------------
// Trusted: the one `String` operation that vstd leaves unspecified
// ---------------------------------------------------------------------

/// Appends one character to a string.
///
/// Trusted: calls `String::push`, which the standard library documents as
/// appending the given `char` to the end of the string.
#[verifier::external_body]
fn push_char(s: &mut String, c: char)
    ensures
        final(s)@ == old(s)@.push(c),
{
    s.push(c);
}

// ---------------------------------------------------------------------
// Conversions between strings and character vectors
// ---------------------------------------------------------------------

/// The characters of a string slice, in order.
pub fn str_chars(s: &str) -> (r: Vec<char>)
    ensures
        r@ == s@,
{
    let mut v: Vec<char> = Vec::new();
    for c in it: s.chars()
        invariant
            v@ == it.seq().take(it.index() as int),
    {
        v.push(c);
    }
    v
}

/// Builds a string from the characters `cs[start..end]`.
pub fn string_from_chars(cs: &[char], start: usize, end: usize) -> (r: String)
    requires
        start <= end <= cs@.len(),
    ensures
        r@ == cs@.subrange(start as int, end as int),
{
    let mut r = String::new();
    let mut i = start;
    while i < end
        invariant
            start <= i <= end <= cs@.len(),
            r@ == cs@.subrange(start as int, i as int),
        decreases end - i,
    {
        push_char(&mut r, cs[i]);
        i = i + 1;
    }
    r
}

/// Appends `cs[start..end]` to `out`.
pub fn push_chars(out: &mut String, cs: &[char], start: usize, end: usize)
    requires
        start <= end <= cs@.len(),
    ensures
        final(out)@ == old(out)@ + cs@.subrange(start as int, end as int),
{
    let mut i = start;
    while i < end
        invariant
            start <= i <= end <= cs@.len(),
            out@ == old(out)@ + cs@.subrange(start as int, i as int),
        decreases end - i,
    {
        push_char(out, cs[i]);
        i = i + 1;
    }
}

/// Appends all of `s` to `out`.
pub fn push_str(out: &mut String, s: &str)
    ensures
        final(out)@ == old(out)@ + s@,
{
    let cs = str_chars(s);
    push_chars(out, cs.as_slice(), 0, cs.len());
    assert(cs@.subrange(0, cs@.len() as int) =~= s@);
}

/// A fresh copy of a string slice.
pub fn owned(s: &str) -> (r: String)
    ensures
        r@ == s@,
{
    let mut r = String::new();
    push_str(&mut r, s);
    assert(r@ =~= s@);
    r
}

/// The concatenation of two string slices.
pub fn concat2(a: &str, b: &str) -> (r: String)
    ensures
        r@ == a@ + b@,
{
    let mut r = String::new();
    push_str(&mut r, a);
    push_str(&mut r, b);
    assert(r@ =~= a@ + b@);
    r
}

/// Whether two string slices hold the same characters.
pub fn str_equals(a: &str, b: &str) -> (r: bool)
    ensures
        r == (a@ == b@),
{
    let x = str_chars(a);
    let y = str_chars(b);
    if x.len() != y.len() {
        return false;
    }
    let mut i: usize = 0;
    while i < x.len()
        invariant
            x@ == a@,
            y@ == b@,
            x@.len() == y@.len(),
            i <= x@.len(),
            forall|j: int| 0 <= j < i ==> x@[j] == y@[j],
        decreases x@.len() - i,
    {
        if x[i] != y[i] {
            return false;
        }
        i = i + 1;
    }
    assert(x@ =~= y@);
    true
}

// ---------------------------------------------------------------------
// White space and trimming
// ---------------------------------------------------------------------

/// Whether `c` is Unicode white space (`char::is_whitespace`).
pub fn char_is_white_space(c: char) -> (r: bool)
    ensures
        r == is_white_space(c),
{
    let u = c as u32;
    (0x09 <= u && u <= 0x0d) || u == 0x20 || u == 0x85 || u == 0xa0 || u == 0x1680 || (0x2000
        <= u && u <= 0x200a) || u == 0x2028 || u == 0x2029 || u == 0x202f || u == 0x205f || u
        == 0x3000
}

/// The bounds, within `lo..hi`, of `cs[lo..hi]` trimmed at both ends.
pub fn trim_bounds(cs: &[char], lo: usize, hi: usize) -> (r: (usize, usize))
    requires
        lo <= hi <= cs@.len(),
    ensures
        lo <= r.0 <= r.1 <= hi,
        cs@.subrange(r.0 as int, r.1 as int) == trim(cs@.subrange(lo as int, hi as int)),
{
    let ghost s = cs@;
    let mut i = lo;
    while i < hi && char_is_white_space(cs[i])
        invariant
            lo <= i <= hi <= s.len(),
            s == cs@,
            trim_start(s.subrange(lo as int, hi as int)) == trim_start(
                s.subrange(i as int, hi as int),
            ),
        decreases hi - i,
    {
        assert(s.subrange(i as int, hi as int).drop_first() =~= s.subrange(
            i + 1,
            hi as int,
        ));
        i = i + 1;
    }
    let mut j = hi;
    while j > i && char_is_white_space(cs[j - 1])
        invariant
            lo <= i <= j <= hi <= s.len(),
            s == cs@,
            trim_start(s.subrange(lo as int, hi as int)) == s.subrange(i as int, hi as int),
            trim_end(s.subrange(i as int, hi as int)) == trim_end(
                s.subrange(i as int, j as int),
            ),
        decreases j - i,
    {
        assert(s.subrange(i as int, j as int).drop_last() =~= s.subrange(
            i as int,
            j - 1,
        ));
        j = j - 1;
    }
    (i, j)
}

/// `str::trim`, as a new string.
pub fn trim_string(s: &str) -> (r: String)
    ensures
        r@ == trim(s@),
{
    let cs = str_chars(s);
    let (a, b) = trim_bounds(cs.as_slice(), 0, cs.len());
    assert(cs@.subrange(0, cs@.len() as int) =~= s@);
    string_from_chars(cs.as_slice(), a, b)
}

// ---------------------------------------------------------------------
// Searching
// ---------------------------------------------------------------------

/// Whether `pat` occurs in `cs` at position `i`.
pub fn chars_match_at(cs: &[char], pat: &[char], i: usize) -> (r: bool)
    requires
        i <= cs@.len(),
    ensures
        r == (i + pat@.len() <= cs@.len() && cs@.subrange(i as int, i + pat@.len()) == pat@),
{
    if pat.len() > cs.len() - i {
        return false;
    }
    let mut k: usize = 0;
    while k < pat.len()
        invariant
            i + pat@.len() <= cs@.len(),
            cs@.len() <= usize::MAX,
            k <= pat@.len(),
            forall|m: int| 0 <= m < k ==> cs@[i + m] == pat@[m],
        decreases pat@.len() - k,
    {
        if cs[i + k] != pat[k] {
            assert(cs@.subrange(i as int, i + pat@.len())[k as int] != pat@[k as int]);
            return false;
        }
        k = k + 1;
    }
    assert(cs@.subrange(i as int, i + pat@.len()) =~= pat@);
    true
}

/// The first position of the non-empty `pat` in `cs` (`str::find`).
pub fn find_chars(cs: &[char], pat: &[char]) -> (r: Option<usize>)
    ensures
        r matches Some(i) ==> find(cs@, pat@) == Some(i as nat),
        r is None ==> find(cs@, pat@) is None,
{
    if pat.len() == 0 {
        return None;
    }
    let mut i: usize = 0;
    while i < cs.len()
        invariant
            pat@.len() > 0,
            i <= cs@.len(),
            find(cs@, pat@) == find_from(cs@, pat@, i as nat),
        decreases cs@.len() - i,
    {
        if chars_match_at(cs, pat, i) {
            return Some(i);
        }
        if pat.len() > cs.len() - i {
            return None;
        }
        i = i + 1;
    }
    None
}

// ---------------------------------------------------------------------
// Lines and joining
// ---------------------------------------------------------------------

/// The lines of `cs` (`str::lines`), as bounds into `cs`.
pub fn line_bounds(cs: &[char]) -> (r: Vec<(usize, usize)>)
    ensures
        r@.len() == lines(cs@).len(),
        forall|k: int|
            #![trigger r@[k]]
            0 <= k < r@.len() ==> {
                &&& r@[k].0 <= r@[k].1 <= cs@.len()
                &&& cs@.subrange(r@[k].0 as int, r@[k].1 as int) == lines(cs@)[k]
            },
{
    let ghost s = cs@;
    let mut done: Vec<(usize, usize)> = Vec::new();
    let mut start: usize = 0;
    let mut i: usize = 0;
    while i < cs.len()
        invariant
            s == cs@,
            start <= i <= s.len(),
            lines_acc(s.take(i as int)).1 == s.subrange(start as int, i as int),
            done@.len() == lines_acc(s.take(i as int)).0.len(),
            forall|k: int|
                #![trigger done@[k]]
                0 <= k < done@.len() ==> {
                    &&& done@[k].0 <= done@[k].1 <= s.len()
                    &&& s.subrange(done@[k].0 as int, done@[k].1 as int) == lines_acc(
                        s.take(i as int),
                    ).0[k]
                },
        decreases s.len() - i,
    {
        let ghost prev = lines_acc(s.take(i as int));
        assert(s.take(i + 1).drop_last() =~= s.take(i as int));
        assert(s.take(i + 1).last() == s[i as int]);
        let ghost ip: int = i + 1;
        let ghost next = lines_acc(s.take(ip));
        if cs[i] == '\n' {
            let end = if i > start && cs[i - 1] == '\r' {
                i - 1
            } else {
                i
            };
            assert(s.subrange(start as int, end as int) =~= strip_cr(
                s.subrange(start as int, i as int),
            ));
            assert(next.0 == prev.0.push(strip_cr(prev.1)));
            done.push((start, end));
            start = i + 1;
            assert forall|k: int| 0 <= k < done@.len() implies {
                &&& done@[k].0 <= done@[k].1 <= s.len()
                &&& s.subrange(done@[k].0 as int, done@[k].1 as int) == next.0[k]
            } by {
                if k < done@.len() - 1 {
                    assert(next.0[k] == prev.0[k]);
                }
            }
            assert(next.1 =~= s.subrange(start as int, i + 1));
        } else {
            assert(next == (prev.0, prev.1.push(s[i as int])));
            assert(s.subrange(start as int, i + 1) =~= s.subrange(start as int, i as int).push(
                s[i as int],
            ));
        }
        i = i + 1;
        assert(i as int == ip);
    }
    assert(s.take(s.len() as int) =~= s);
    let ghost acc = lines_acc(s);
    if start < cs.len() {
        done.push((start, cs.len()));
        assert(lines(s) == acc.0.push(acc.1));
        assert forall|k: int| 0 <= k < done@.len() implies {
            &&& done@[k].0 <= done@[k].1 <= cs@.len()
            &&& cs@.subrange(done@[k].0 as int, done@[k].1 as int) == lines(cs@)[k]
        } by {
            if k < done@.len() - 1 {
                assert(lines(s)[k] == acc.0[k]);
            }
        }
    } else {
        assert(acc.1.len() == 0);
        assert(lines(s) == acc.0);
    }
    done
}

/// `cs[bounds[k].0..bounds[k].1]` for `k` in `from..to`, joined by `sep`.
pub fn join_bounds(
    cs: &[char],
    bounds: &[(usize, usize)],
    from: usize,
    to: usize,
    sep: &str,
) -> (r: String)
    requires
        from <= to <= bounds@.len(),
        forall|k: int| 0 <= k < bounds@.len() ==> #[trigger] bounds@[k].0 <= bounds@[k].1 <= cs@.len(),
    ensures
        r@ == join(pieces(cs@, bounds@.subrange(from as int, to as int)), sep@),
{
    let mut r = String::new();
    let mut k = from;
    while k < to
        invariant
            from <= k <= to <= bounds@.len(),
            forall|m: int| 0 <= m < bounds@.len() ==> #[trigger] bounds@[m].0 <= bounds@[m].1 <= cs@.len(),
            r@ == join(pieces(cs@, bounds@.subrange(from as int, k as int)), sep@),
        decreases to - k,
    {
        let ghost prev = pieces(cs@, bounds@.subrange(from as int, k as int));
        let ghost next = pieces(cs@, bounds@.subrange(from as int, k + 1));
        assert(next.drop_last() =~= prev);
        assert(next.last() == cs@.subrange(bounds@[k as int].0 as int, bounds@[k as int].1 as int));
        if k > from {
            push_str(&mut r, sep);
        }
        let (a, b) = bounds[k];
        push_chars(&mut r, cs, a, b);
        if k == from {
            assert(next.len() == 1);
            assert(r@ =~= next[0]);
        } else {
            assert(r@ =~= join(prev, sep@) + sep@ + next.last());
        }
        k = k + 1;
    }
    r
}

/// The strings of `parts` joined by `sep` (`[String]::join`).
pub fn join_strings(parts: &Vec<String>, sep: &str) -> (r: String)
    ensures
        r@ == join(string_views(parts@), sep@),
{
    let mut r = String::new();
    let mut k: usize = 0;
    while k < parts.len()
        invariant
            k <= parts@.len(),
            r@ == join(string_views(parts@.take(k as int)), sep@),
        decreases parts@.len() - k,
    {
        let ghost prev = string_views(parts@.take(k as int));
        let ghost next = string_views(parts@.take(k + 1));
        assert(next.drop_last() =~= prev);
        assert(next.len() == k + 1);
        assert(next[k as int] == parts@[k as int]@);
        let ghost before = r@;
        assert(before == join(prev, sep@));
        if k > 0 {
            push_str(&mut r, sep);
        }
        push_str(&mut r, parts[k].as_str());
        if k == 0 {
            assert(prev.len() == 0);
            assert(before.len() == 0);
            assert(r@ =~= next[0]);
        } else {
            assert(r@ =~= join(prev, sep@) + sep@ + next.last());
        }
        k = k + 1;
    }
    assert(parts@.take(parts@.len() as int) =~= parts@);
    r
}

// ---------------------------------------------------------------------
// Replacing
// ---------------------------------------------------------------------

/// `s` with every occurrence of the non-empty `pat` replaced by `rep`
/// (`str::replace`).
pub fn replace_all(s: &str, pat: &str, rep: &str) -> (r: String)
    requires
        pat@.len() > 0,
    ensures
        r@ == replace(s@, pat@, rep@),
{
    let cs = str_chars(s);
    let ps = str_chars(pat);
    let mut r = String::new();
    let mut i: usize = 0;
    assert(cs@.skip(0) =~= cs@);
    assert(r@ + replace(cs@, ps@, rep@) =~= replace(cs@, ps@, rep@));
    while i < cs.len()
        invariant
            i <= cs@.len(),
            cs@ == s@,
            ps@ == pat@,
            ps@.len() > 0,
            r@ + replace(cs@.skip(i as int), ps@, rep@) == replace(cs@, ps@, rep@),
        decreases cs@.len() - i,
    {
        let ghost rest = cs@.skip(i as int);
        if chars_match_at(cs.as_slice(), ps.as_slice(), i) {
            assert(rest.take(ps@.len() as int) =~= cs@.subrange(i as int, i + ps@.len()));
            assert(rest.skip(ps@.len() as int) =~= cs@.skip(i + ps@.len()));
            push_str(&mut r, rep);
            assert(r@ + replace(cs@.skip(i + ps@.len()), ps@, rep@) =~= replace(
                cs@,
                ps@,
                rep@,
            ));
            i = i + ps.len();
        } else {
            assert(ps@.len() <= rest.len() ==> rest.take(ps@.len() as int) =~= cs@.subrange(
                i as int,
                i + ps@.len(),
            ));
            assert(rest.skip(1) =~= cs@.skip(i + 1));
            push_char(&mut r, cs[i]);
            assert(r@ + replace(cs@.skip(i + 1), ps@, rep@) =~= replace(cs@, ps@, rep@));
            i = i + 1;
        }
    }
    assert(cs@.skip(i as int) =~= Seq::<char>::empty());
    assert(r@ =~= r@ + replace(cs@.skip(i as int), ps@, rep@));
    r
}

/// `s` with every trailing `c` removed (`str::trim_end_matches`).
pub fn trim_end_matching(s: &str, c: char) -> (r: String)
    ensures
        r@ == trim_end_char(s@, c),
{
    let cs = str_chars(s);
    let mut j = cs.len();
    assert(cs@.take(j as int) =~= cs@);
    while j > 0 && cs[j - 1] == c
        invariant
            j <= cs@.len(),
            trim_end_char(cs@, c) == trim_end_char(cs@.take(j as int), c),
        decreases j,
    {
        assert(cs@.take(j as int).drop_last() =~= cs@.take(j - 1));
        j = j - 1;
    }
    assert(cs@.take(j as int) =~= cs@.subrange(0, j as int));
    string_from_chars(cs.as_slice(), 0, j)
}

// ---------------------------------------------------------------------
// Numbers
// ---------------------------------------------------------------------

/// `format!("{}", n)` for a `u64`.
pub fn u64_to_decimal(n: u64) -> (r: String)
    ensures
        r@ == decimal(n as nat),
{
    let mut low: Vec<char> = Vec::new();
    let mut m = n;
    while m >= 10
        invariant
            decimal(n as nat) == decimal(m as nat) + low@.reverse(),
        decreases m,
    {
        let d = (m % 10) as u8;
        let c = (48u8 + d) as char;
        assert(c == digit_char((m % 10) as nat));
        assert(low@.push(c).reverse() =~= seq![c] + low@.reverse());
        low.push(c);
        m = m / 10;
    }
    let mut r = String::new();
    push_char(&mut r, (48u8 + m as u8) as char);
    let mut k = low.len();
    while k > 0
        invariant
            k <= low@.len(),
            decimal(n as nat) == decimal(m as nat) + low@.reverse(),
            decimal(m as nat) == seq![digit_char(m as nat)],
            r@ + low@.take(k as int).reverse() == decimal(n as nat),
        decreases k,
    {
        assert(low@.take(k as int).reverse() =~= seq![low@[k - 1]] + low@.take(k - 1).reverse());
        push_char(&mut r, low[k - 1]);
        k = k - 1;
    }
    assert(low@.take(0).reverse() =~= Seq::<char>::empty());
    assert(r@ =~= decimal(n as nat));
    r
}

/// `format!("{:016x}", n)`: sixteen lower-case hexadecimal digits.
pub fn u64_to_hex16(n: u64) -> (r: String)
    ensures
        r@ == hex_digits(n as nat, 16),
{
    let mut low: Vec<char> = Vec::new();
    let mut m = n;
    let mut w: usize = 16;
    while w > 0
        invariant
            w <= 16,
            low@.len() == 16 - w,
            hex_digits(n as nat, 16) == hex_digits(m as nat, w as nat) + low@.reverse(),
        decreases w,
    {
        let d = (m % 16) as u8;
        let c = if d < 10 {
            (48u8 + d) as char
        } else {
            (87u8 + d) as char
        };
        assert(c == hex_char((m % 16) as nat));
        assert(low@.push(c).reverse() =~= seq![c] + low@.reverse());
        low.push(c);
        m = m / 16;
        w = w - 1;
    }
    let mut r = String::new();
    let mut k = low.len();
    while k > 0
        invariant
            k <= low@.len(),
            hex_digits(n as nat, 16) == low@.reverse(),
            r@ + low@.take(k as int).reverse() == hex_digits(n as nat, 16),
        decreases k,
    {
        assert(low@.take(k as int).reverse() =~= seq![low@[k - 1]] + low@.take(k - 1).reverse());
        push_char(&mut r, low[k - 1]);
        k = k - 1;
    }
    assert(low@.take(0).reverse() =~= Seq::<char>::empty());
    assert(r@ =~= hex_digits(n as nat, 16));
    r
}

/// `str::parse::<u32>`, giving `None` where it gives an error.
pub fn parse_u32_str(s: &str) -> (r: Option<u32>)
    ensures
        r == parse_u32(s@),
{
    let cs = str_chars(s);
    let start: usize = if cs.len() > 0 && cs[0] == '+' {
        1
    } else {
        0
    };
    let ghost body = cs@.skip(start as int);
    assert(body =~= (if s@.len() > 0 && s@[0] == '+' {
        s@.drop_first()
    } else {
        s@
    }));
    if start == cs.len() {
        return None;
    }
    let mut value: u64 = 0;
    let mut i = start;
    while i < cs.len()
        invariant
            start <= i <= cs@.len(),
            start < cs@.len(),
            cs@ == s@,
            body == cs@.skip(start as int),
            body == (if s@.len() > 0 && s@[0] == '+' {
                s@.drop_first()
            } else {
                s@
            }),
            all_digits(cs@.subrange(start as int, i as int)),
            value == digits_value(cs@.subrange(start as int, i as int)),
            value <= u32::MAX,
        decreases cs@.len() - i,
    {
        let c = cs[i];
        let ghost prefix = cs@.subrange(start as int, i + 1);
        assert(prefix.drop_last() =~= cs@.subrange(start as int, i as int));
        if c < '0' || c > '9' {
            assert(body[i - start] == c);
            assert(!is_digit(body[i - start]));
            return None;
        }
        let d = (c as u32 - 48) as u64;
        value = value * 10 + d;
        assert(value == digits_value(prefix));
        if value > 0xffff_ffff {
            proof {
                if all_digits(body) {
                    lemma_digits_value_prefix_monotone(body, (i + 1 - start) as nat);
                    assert(body.take(i + 1 - start) =~= prefix);
                }
            }
            return None;
        }
        i = i + 1;
    }
    assert(cs@.subrange(start as int, cs@.len() as int) =~= body);
    Some(value as u32)
}

/// Where `find_from` reports a position, the pattern occurs there.
pub proof fn lemma_find_from_matches(s: Seq<char>, pat: Seq<char>, i: nat)
    ensures
        find_from(s, pat, i) matches Some(j) ==> {
            &&& i <= j
            &&& j + pat.len() <= s.len()
            &&& s.subrange(j as int, (j + pat.len()) as int) == pat
        },
    decreases s.len() - i,
{
    if pat.len() == 0 || i + pat.len() > s.len() {
    } else if s.subrange(i as int, (i + pat.len()) as int) == pat {
    } else {
        lemma_find_from_matches(s, pat, i + 1);
    }
}

/// Extending a run of digits never lowers its value.
proof fn lemma_digits_value_prefix_monotone(s: Seq<char>, k: nat)
    requires
        k <= s.len(),
        all_digits(s),
    ensures
        digits_value(s.take(k as int)) <= digits_value(s),
    decreases s.len(),
{
    if k < s.len() {
        assert(s.drop_last().take(k as int) =~= s.take(k as int));
        assert(all_digits(s.drop_last()));
        lemma_digits_value_prefix_monotone(s.drop_last(), k);
    } else {
        assert(s.take(k as int) =~= s);
    }
}


/// `16^k`.
pub open spec fn pow16(k: nat) -> nat
    decreases k,
{
    if k == 0 {
        1
    } else {
        16 * pow16((k - 1) as nat)
    }
}

/// Numbers below `16^width` have different digits.
pub proof fn lemma_hex_digits_injective(a: nat, b: nat, width: nat)
    requires
        a < pow16(width),
        b < pow16(width),
        hex_digits(a, width) == hex_digits(b, width),
    ensures
        a == b,
    decreases width,
{
    if width > 0 {
        let w1 = (width - 1) as nat;
        let ha = hex_digits(a, width);
        let hb = hex_digits(b, width);
        assert(ha.last() == hex_char(a % 16));
        assert(hb.last() == hex_char(b % 16));
        assert(ha.drop_last() =~= hex_digits(a / 16, w1));
        assert(hb.drop_last() =~= hex_digits(b / 16, w1));
        assert(a % 16 == b % 16);
        let p = pow16(w1);
        assert(a / 16 < p) by (nonlinear_arith)
            requires
                a < 16 * p,
        ;
        assert(b / 16 < p) by (nonlinear_arith)
            requires
                b < 16 * p,
        ;
        lemma_hex_digits_injective(a / 16, b / 16, w1);
    }
}

/// The decimal representation of `n` is a non-empty run of digits whose
/// value is `n`.
pub proof fn lemma_decimal_digits(n: nat)
    ensures
        decimal(n).len() > 0,
        all_digits(decimal(n)),
        digits_value(decimal(n)) == n,
    decreases n,
{
    if n < 10 {
        let s = decimal(n);
        assert(s.drop_last() =~= Seq::<char>::empty());
        assert((digit_char(n) as nat) == 48 + n);
        assert(digits_value(Seq::<char>::empty()) == 0);
        assert(digits_value(s) == digits_value(s.drop_last()) * 10 + ((s.last() as nat) - 48) as nat);
    } else {
        lemma_decimal_digits(n / 10);
        let d = decimal(n / 10);
        let s = decimal(n);
        assert(s.drop_last() =~= d);
        assert((digit_char(n % 10) as nat) == 48 + n % 10);
        assert(s.last() == digit_char(n % 10));
        assert(digits_value(s) == digits_value(d) * 10 + ((s.last() as nat) - 48) as nat);
        assert(n == (n / 10) * 10 + n % 10);
        assert forall|i: int| 0 <= i < s.len() implies is_digit(#[trigger] s[i]) by {
            if i < d.len() {
                assert(s[i] == d[i]);
            }
        }
    }
}

/// Parsing the decimal representation of a `u32` gives the number back.
pub proof fn lemma_parse_decimal(n: u32)
    ensures
        parse_u32(decimal(n as nat)) == Some(n),
{
    lemma_decimal_digits(n as nat);
    let s = decimal(n as nat);
    assert(is_digit(s[0]));
}
} // verus!
