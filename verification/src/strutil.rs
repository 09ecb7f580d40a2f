use vstd::prelude::*;
use vstd::string::StrSliceExecFns;

verus! {

/// Relies on `String::push`: appends the given character to the string.
pub assume_specification[ std::string::String::push ](s: &mut std::string::String, c: char)
    ensures
        final(s)@ == old(s)@.push(c),
;

/// The characters of `s`, as a vector.
pub fn chars_of(s: &str) -> (r: Vec<char>)
    ensures
        r@ == s@,
{
    let n = s.unicode_len();
    let mut r: Vec<char> = Vec::new();
    let mut i: usize = 0;
    while i < n
        invariant
            i <= n,
            n == s@.len(),
            r@ == s@.take(i as int),
        decreases n - i,
    {
        r.push(s.get_char(i));
        assert(s@.take(i + 1) =~= s@.take(i as int).push(s@[i as int]));
        i = i + 1;
    }
    assert(s@.take(n as int) =~= s@);
    r
}

/// A string holding exactly the characters of `v`.
pub fn string_from_chars(v: &[char]) -> (r: String)
    ensures
        r@ == v@,
{
    let mut r = String::new();
    let mut i: usize = 0;
    while i < v.len()
        invariant
            i <= v@.len(),
            r@ == v@.take(i as int),
        decreases v@.len() - i,
    {
        r.push(v[i]);
        assert(v@.take(i + 1) =~= v@.take(i as int).push(v@[i as int]));
        i = i + 1;
    }
    assert(v@.take(v@.len() as int) =~= v@);
    r
}

/// Whether two string slices hold the same characters.
pub fn str_eq(a: &str, b: &str) -> (r: bool)
    ensures
        r == (a@ == b@),
{
    let n = a.unicode_len();
    let m = b.unicode_len();
    if n != m {
        return false;
    }
    let mut i: usize = 0;
    while i < n
        invariant
            i <= n,
            n == a@.len(),
            n == b@.len(),
            forall|j: int| 0 <= j < i ==> a@[j] == b@[j],
        decreases n - i,
    {
        if a.get_char(i) != b.get_char(i) {
            return false;
        }
        i = i + 1;
    }
    assert(a@ =~= b@);
    true
}

/// Appends the characters of `src` to `out`.
pub fn append_chars(out: &mut Vec<char>, src: &[char])
    ensures
        final(out)@ == old(out)@ + src@,
{
    let mut i: usize = 0;
    while i < src.len()
        invariant
            i <= src@.len(),
            out@ == old(out)@ + src@.take(i as int),
        decreases src@.len() - i,
    {
        out.push(src[i]);
        assert(old(out)@ + src@.take(i + 1) =~= (old(out)@ + src@.take(i as int)).push(
            src@[i as int],
        ));
        i = i + 1;
    }
    assert(old(out)@ + src@.take(src@.len() as int) =~= old(out)@ + src@);
}

/// Appends the characters of the string slice `s` to `out`.
pub fn append_str(out: &mut Vec<char>, s: &str)
    ensures
        final(out)@ == old(out)@ + s@,
{
    let cs = chars_of(s);
    append_chars(out, cs.as_slice());
}

/// The decimal digit characters of `n`, most significant first.
pub open spec fn spec_decimal(n: nat) -> Seq<char>
    decreases n,
{
    let digit = seq![spec_digit_char((n % 10) as nat)];
    if n < 10 {
        digit
    } else {
        spec_decimal((n / 10) as nat) + digit
    }
}

/// The character for one decimal digit value.
pub open spec fn spec_digit_char(d: nat) -> char {
    if d == 0 {
        '0'
    } else if d == 1 {
        '1'
    } else if d == 2 {
        '2'
    } else if d == 3 {
        '3'
    } else if d == 4 {
        '4'
    } else if d == 5 {
        '5'
    } else if d == 6 {
        '6'
    } else if d == 7 {
        '7'
    } else if d == 8 {
        '8'
    } else {
        '9'
    }
}

fn digit_char(d: u128) -> (r: char)
    requires
        d < 10,
    ensures
        r == spec_digit_char(d as nat),
{
    if d == 0 {
        '0'
    } else if d == 1 {
        '1'
    } else if d == 2 {
        '2'
    } else if d == 3 {
        '3'
    } else if d == 4 {
        '4'
    } else if d == 5 {
        '5'
    } else if d == 6 {
        '6'
    } else if d == 7 {
        '7'
    } else if d == 8 {
        '8'
    } else {
        '9'
    }
}

/// Whether `c` is an ASCII whitespace character, the class that trimming
/// strips from line ends.
pub open spec fn is_space_char(c: char) -> bool {
    c == ' ' || c == '\t' || c == '\r' || c == '\n' || c == '\u{b}' || c == '\u{c}'
}

/// `s` without its leading whitespace.
pub open spec fn spec_trim_start(s: Seq<char>) -> Seq<char>
    decreases s.len(),
{
    if s.len() > 0 && is_space_char(s[0]) {
        spec_trim_start(s.drop_first())
    } else {
        s
    }
}

/// `s` without its trailing whitespace.
pub open spec fn spec_trim_end(s: Seq<char>) -> Seq<char>
    decreases s.len(),
{
    if s.len() > 0 && is_space_char(s.last()) {
        spec_trim_end(s.drop_last())
    } else {
        s
    }
}

/// `s` without leading and trailing whitespace.
pub open spec fn spec_trim(s: Seq<char>) -> Seq<char> {
    spec_trim_end(spec_trim_start(s))
}

/// Whether `c` is ASCII whitespace.
pub fn is_space(c: char) -> (r: bool)
    ensures
        r == is_space_char(c),
{
    c == ' ' || c == '\t' || c == '\r' || c == '\n' || c == '\u{b}' || c == '\u{c}'
}

/// The characters of `v` with leading and trailing whitespace removed.
pub fn trim_chars(v: &[char]) -> (r: Vec<char>)
    ensures
        r@ == spec_trim(v@),
{
    let len = v.len();
    let mut a: usize = 0;
    assert(v@.subrange(0, len as int) =~= v@);
    while a < len && is_space(v[a])
        invariant
            a <= len,
            len == v@.len(),
            spec_trim_start(v@) == spec_trim_start(v@.subrange(a as int, len as int)),
        decreases len - a,
    {
        assert(v@.subrange(a as int, len as int).drop_first() =~= v@.subrange(
            a + 1,
            len as int,
        ));
        a = a + 1;
    }
    assert(spec_trim_start(v@) == v@.subrange(a as int, len as int));
    let mut b: usize = len;
    while b > a && is_space(v[b - 1])
        invariant
            a <= b <= len,
            len == v@.len(),
            spec_trim_end(v@.subrange(a as int, len as int)) == spec_trim_end(
                v@.subrange(a as int, b as int),
            ),
        decreases b,
    {
        assert(v@.subrange(a as int, b as int).drop_last() =~= v@.subrange(a as int, b - 1));
        b = b - 1;
    }
    assert(spec_trim_end(v@.subrange(a as int, len as int)) == v@.subrange(a as int, b as int));
    let mut r: Vec<char> = Vec::new();
    let mut i: usize = a;
    while i < b
        invariant
            a <= i <= b <= v@.len(),
            r@ == v@.subrange(a as int, i as int),
        decreases b - i,
    {
        r.push(v[i]);
        assert(v@.subrange(a as int, i + 1) =~= v@.subrange(a as int, i as int).push(
            v@[i as int],
        ));
        i = i + 1;
    }
    r
}

/// Whether the characters of `v` equal those of `s`.
pub fn chars_eq_str(v: &[char], s: &str) -> (r: bool)
    ensures
        r == (v@ == s@),
{
    let n = s.unicode_len();
    if v.len() != n {
        return false;
    }
    let mut i: usize = 0;
    while i < n
        invariant
            i <= n,
            n == s@.len(),
            n == v@.len(),
            forall|j: int| 0 <= j < i ==> v@[j] == s@[j],
        decreases n - i,
    {
        if v[i] != s.get_char(i) {
            return false;
        }
        i = i + 1;
    }
    assert(v@ =~= s@);
    true
}

/// Whether `s` is a prefix of `v`.
pub fn chars_start_with_str(v: &[char], s: &str) -> (r: bool)
    ensures
        r == (v@.len() >= s@.len() && v@.take(s@.len() as int) == s@),
{
    let n = s.unicode_len();
    if v.len() < n {
        return false;
    }
    let mut i: usize = 0;
    while i < n
        invariant
            i <= n,
            n == s@.len(),
            n <= v@.len(),
            forall|j: int| 0 <= j < i ==> v@[j] == s@[j],
        decreases n - i,
    {
        if v[i] != s.get_char(i) {
            assert(v@.take(n as int)[i as int] != s@[i as int]);
            return false;
        }
        i = i + 1;
    }
    assert(v@.take(n as int) =~= s@);
    true
}

/// Whether `v` holds the character `c` anywhere.
pub fn chars_contain(v: &[char], c: char) -> (r: bool)
    ensures
        r == v@.contains(c),
{
    let mut i: usize = 0;
    while i < v.len()
        invariant
            i <= v@.len(),
            forall|j: int| 0 <= j < i ==> v@[j] != c,
        decreases v@.len() - i,
    {
        if v[i] == c {
            assert(v@[i as int] == c);
            return true;
        }
        i = i + 1;
    }
    assert(forall|j: int| 0 <= j < v@.len() ==> v@[j] != c);
    false
}

/// The index of the first newline in `s`, or `s.len()` when there is none.
pub open spec fn first_nl(s: Seq<char>) -> int
    decreases s.len(),
{
    if s.len() == 0 {
        0
    } else if s[0] == '\n' {
        0
    } else {
        1 + first_nl(s.drop_first())
    }
}

/// The first newline index lies in `[0, s.len()]`, points at a newline when
/// inside, and nothing before it is a newline.
pub proof fn lemma_first_nl_bounds(s: Seq<char>)
    ensures
        0 <= first_nl(s) <= s.len(),
        first_nl(s) < s.len() ==> s[first_nl(s)] == '\n',
        forall|j: int| 0 <= j < first_nl(s) ==> s[j] != '\n',
    decreases s.len(),
{
    if s.len() > 0 && s[0] != '\n' {
        lemma_first_nl_bounds(s.drop_first());
        assert forall|j: int| 0 <= j < first_nl(s) implies s[j] != '\n' by {
            if j > 0 {
                assert(s[j] == s.drop_first()[j - 1]);
            }
        }
        if first_nl(s) < s.len() {
            assert(s[first_nl(s)] == s.drop_first()[first_nl(s.drop_first())]);
        }
    }
}

/// If nothing before `m` is a newline and `m` is a newline or the end,
/// then `m` is the first newline index.
pub proof fn lemma_first_nl_at(s: Seq<char>, m: int)
    requires
        0 <= m <= s.len(),
        forall|k: int| 0 <= k < m ==> s[k] != '\n',
        m < s.len() ==> s[m] == '\n',
    ensures
        first_nl(s) == m,
    decreases m,
{
    if m > 0 {
        lemma_first_nl_at(s.drop_first(), m - 1);
    }
}

/// `s` without one trailing carriage return, if it has one.
pub open spec fn strip_cr(s: Seq<char>) -> Seq<char> {
    if s.len() > 0 && s.last() == '\r' {
        s.drop_last()
    } else {
        s
    }
}

/// The lines of `s`: pieces between newlines, each without its terminator
/// and without one trailing carriage return; a final empty piece is omitted.
pub open spec fn spec_lines_of(s: Seq<char>) -> Seq<Seq<char>>
    decreases s.len(),
    via spec_lines_of_dec
{
    if s.len() == 0 {
        Seq::empty()
    } else {
        let i = first_nl(s);
        if i < s.len() {
            seq![strip_cr(s.take(i))] + spec_lines_of(s.skip(i + 1))
        } else {
            seq![strip_cr(s)]
        }
    }
}

#[via_fn]
proof fn spec_lines_of_dec(s: Seq<char>) {
    lemma_first_nl_bounds(s);
}

/// The views of a vector of character vectors.
pub open spec fn views_of(r: Seq<Vec<char>>) -> Seq<Seq<char>> {
    Seq::new(r.len(), |i: int| r[i]@)
}

/// Splits `v` into its lines, as `str::lines` does.
pub fn split_lines(v: &[char]) -> (r: Vec<Vec<char>>)
    ensures
        views_of(r@) == spec_lines_of(v@),
{
    let len = v.len();
    let mut r: Vec<Vec<char>> = Vec::new();
    let mut p: usize = 0;
    assert(views_of(r@) =~= Seq::<Seq<char>>::empty());
    assert(v@.skip(0) =~= v@);
    while p < len
        invariant
            p <= len,
            len == v@.len(),
            spec_lines_of(v@) == views_of(r@) + spec_lines_of(v@.skip(p as int)),
        decreases len - p,
    {
        let ghost prev_r = r@;
        let ghost s = v@.skip(p as int);
        let mut j: usize = p;
        while j < len && v[j] != '\n'
            invariant
                p <= j <= len,
                len == v@.len(),
                forall|k: int| p <= k < j ==> v@[k] != '\n',
            decreases len - j,
        {
            j = j + 1;
        }
        proof {
            assert forall|k: int| 0 <= k < j - p implies s[k] != '\n' by {
                assert(s[k] == v@[p + k]);
            }
            if j < len {
                assert(s[j - p] == v@[j as int]);
            }
            lemma_first_nl_at(s, j - p);
        }
        let hi: usize = if j > p && v[j - 1] == '\r' {
            j - 1
        } else {
            j
        };
        let mut line: Vec<char> = Vec::new();
        let mut q: usize = p;
        while q < hi
            invariant
                p <= q <= hi <= v@.len(),
                line@ == v@.subrange(p as int, q as int),
            decreases hi - q,
        {
            line.push(v[q]);
            assert(v@.subrange(p as int, q + 1) =~= v@.subrange(p as int, q as int).push(
                v@[q as int],
            ));
            q = q + 1;
        }
        proof {
            if j < len {
                assert(s.take(j - p) =~= v@.subrange(p as int, j as int));
                assert(strip_cr(s.take(j - p)) =~= v@.subrange(p as int, hi as int));
                assert(s.skip(j - p + 1) =~= v@.skip(j + 1));
                assert(spec_lines_of(s) == seq![strip_cr(s.take(j - p))] + spec_lines_of(
                    s.skip(j - p + 1),
                ));
            } else {
                assert(s =~= v@.subrange(p as int, len as int));
                assert(strip_cr(s) =~= v@.subrange(p as int, hi as int));
                assert(spec_lines_of(s) == seq![strip_cr(s)]);
                assert(v@.skip(len as int).len() == 0);
            }
        }
        r.push(line);
        proof {
            assert(views_of(r@) =~= views_of(prev_r).push(v@.subrange(p as int, hi as int)));
            if j < len {
                assert(views_of(r@) + spec_lines_of(v@.skip(j + 1)) =~= views_of(prev_r)
                    + spec_lines_of(s));
            } else {
                assert(spec_lines_of(v@.skip(len as int)) =~= Seq::<Seq<char>>::empty());
                assert(views_of(r@) + spec_lines_of(v@.skip(len as int)) =~= views_of(prev_r)
                    + spec_lines_of(s));
            }
        }
        if j < len {
            p = j + 1;
        } else {
            p = len;
        }
    }
    assert(spec_lines_of(v@.skip(len as int)) =~= Seq::<Seq<char>>::empty());
    assert(views_of(r@) + Seq::<Seq<char>>::empty() =~= views_of(r@));
    r
}

/// Appends the decimal form of `n` to `out`.
pub fn append_decimal(out: &mut Vec<char>, n: u128)
    ensures
        final(out)@ == old(out)@ + spec_decimal(n as nat),
    decreases n,
{
    if n < 10 {
        out.push(digit_char(n));
    } else {
        append_decimal(out, n / 10);
        out.push(digit_char(n % 10));
        assert(old(out)@ + spec_decimal(n as nat) =~= (old(out)@ + spec_decimal(
            (n / 10) as nat,
        )).push(spec_digit_char((n % 10) as nat)));
    }
}

/// Whether no character of `x` is a newline.
pub open spec fn no_nl(x: Seq<char>) -> bool {
    forall|j: int| 0 <= j < x.len() ==> x[j] != '\n'
}

/// Splitting after a complete final line: the lines of a concatenation
/// are the lines of each part.
pub proof fn lemma_lines_of_concat(a: Seq<char>, b: Seq<char>)
    requires
        a.len() > 0,
        a.last() == '\n',
    ensures
        spec_lines_of(a + b) == spec_lines_of(a) + spec_lines_of(b),
    decreases a.len(),
{
    lemma_first_nl_bounds(a);
    let i = first_nl(a);
    if i == a.len() {
        assert(a[a.len() - 1] != '\n');
        assert(false);
    }
    assert(a[i] == '\n');
    assert forall|k: int| 0 <= k < i implies (a + b)[k] != '\n' by {
        assert((a + b)[k] == a[k]);
    }
    assert((a + b)[i] == a[i]);
    lemma_first_nl_at(a + b, i);
    assert((a + b).take(i) =~= a.take(i));
    assert((a + b).skip(i + 1) =~= a.skip(i + 1) + b);
    if i + 1 == a.len() {
        assert(a.skip(i + 1) =~= Seq::<char>::empty());
        assert(a.skip(i + 1) + b =~= b);
        assert(spec_lines_of(a.skip(i + 1)) =~= Seq::<Seq<char>>::empty());
        assert(spec_lines_of(a + b) =~= spec_lines_of(a) + spec_lines_of(b));
    } else {
        assert(a.skip(i + 1).len() > 0);
        assert(a.skip(i + 1).last() == a.last());
        lemma_lines_of_concat(a.skip(i + 1), b);
        assert(spec_lines_of(a + b) =~= spec_lines_of(a) + spec_lines_of(b));
    }
}

/// A text with no newline, terminated by one, splits into that single
/// line.
pub proof fn lemma_lines_of_single(x: Seq<char>)
    requires
        no_nl(x),
    ensures
        spec_lines_of(x + seq!['\n']) == seq![strip_cr(x)],
{
    let s = x + seq!['\n'];
    assert forall|k: int| 0 <= k < x.len() implies s[k] != '\n' by {
        assert(s[k] == x[k]);
    }
    assert(s[x.len() as int] == '\n');
    lemma_first_nl_at(s, x.len() as int);
    assert(s.take(x.len() as int) =~= x);
    assert(s.skip(x.len() as int + 1) =~= Seq::<char>::empty());
    assert(spec_lines_of(s.skip(x.len() as int + 1)) =~= Seq::<Seq<char>>::empty());
    assert(spec_lines_of(s) =~= seq![strip_cr(x)]);
}

/// Every line of a split holds no newline.
pub proof fn lemma_lines_no_nl(s: Seq<char>)
    ensures
        forall|k: int|
            0 <= k < spec_lines_of(s).len() ==> no_nl(#[trigger] spec_lines_of(s)[k]),
    decreases s.len(),
{
    if s.len() > 0 {
        lemma_first_nl_bounds(s);
        let i = first_nl(s);
        if i < s.len() {
            lemma_lines_no_nl(s.skip(i + 1));
            assert forall|k: int|
                0 <= k < spec_lines_of(s).len() implies no_nl(
                #[trigger] spec_lines_of(s)[k]) by {
                if k == 0 {
                    assert(spec_lines_of(s)[0] == strip_cr(s.take(i)));
                    assert forall|j: int|
                        0 <= j < strip_cr(s.take(i)).len() implies strip_cr(s.take(i))[j]
                        != '\n' by {
                        assert(strip_cr(s.take(i))[j] == s.take(i)[j]);
                        assert(s.take(i)[j] == s[j]);
                    }
                } else {
                    assert(spec_lines_of(s)[k] == spec_lines_of(s.skip(i + 1))[k - 1]);
                }
            }
        } else {
            assert forall|k: int|
                0 <= k < spec_lines_of(s).len() implies no_nl(
                #[trigger] spec_lines_of(s)[k]) by {
                assert(spec_lines_of(s)[k] == strip_cr(s));
                assert forall|j: int| 0 <= j < strip_cr(s).len() implies strip_cr(s)[j]
                    != '\n' by {
                    assert(strip_cr(s)[j] == s[j]);
                }
            }
        }
    }
}

/// Dropping a final newline: the remaining lines are a prefix of the
/// lines of the full text, each unchanged.
pub proof fn lemma_lines_of_pop(s: Seq<char>)
    requires
        s.len() > 0,
        s.last() == '\n',
    ensures
        spec_lines_of(s.drop_last()).len() <= spec_lines_of(s).len(),
        forall|k: int|
            0 <= k < spec_lines_of(s.drop_last()).len() ==> #[trigger] spec_lines_of(
                s.drop_last(),
            )[k] == spec_lines_of(s)[k],
    decreases s.len(),
{
    let y = s.drop_last();
    if y.len() == 0 {
        assert(spec_lines_of(y) =~= Seq::<Seq<char>>::empty());
    } else {
        lemma_first_nl_bounds(s);
        let i = first_nl(s);
        if i == s.len() {
            assert(s[s.len() - 1] != '\n');
            assert(false);
        }
        if i == y.len() {
            // The final character is the first newline: one line each way.
            assert forall|k: int| 0 <= k < y.len() implies y[k] != '\n' by {
                assert(y[k] == s[k]);
            }
            lemma_first_nl_at(y, y.len() as int);
            assert(s.take(i) =~= y);
            assert(s.skip(i + 1) =~= Seq::<char>::empty());
            assert(spec_lines_of(s.skip(i + 1)) =~= Seq::<Seq<char>>::empty());
            assert(spec_lines_of(s) =~= seq![strip_cr(y)]);
            assert(spec_lines_of(y) =~= seq![strip_cr(y)]);
        } else {
            assert(i < y.len());
            assert forall|k: int| 0 <= k < i implies y[k] != '\n' by {
                assert(y[k] == s[k]);
            }
            assert(y[i] == s[i]);
            lemma_first_nl_at(y, i);
            assert(y.take(i) =~= s.take(i));
            assert(y.skip(i + 1) =~= s.skip(i + 1).drop_last());
            assert(s.skip(i + 1).len() > 0);
            assert(s.skip(i + 1).last() == s.last());
            lemma_lines_of_pop(s.skip(i + 1));
            assert(spec_lines_of(s) == seq![strip_cr(s.take(i))] + spec_lines_of(
                s.skip(i + 1),
            ));
            assert(spec_lines_of(y) == seq![strip_cr(y.take(i))] + spec_lines_of(
                y.skip(i + 1),
            ));
            assert forall|k: int|
                0 <= k < spec_lines_of(y).len() implies #[trigger] spec_lines_of(y)[k]
                == spec_lines_of(s)[k] by {
                if k > 0 {
                    assert(spec_lines_of(y)[k] == spec_lines_of(y.skip(i + 1))[k - 1]);
                    assert(spec_lines_of(s)[k] == spec_lines_of(s.skip(i + 1))[k - 1]);
                }
            }
        }
    }
}

/// Trimming ignores a stripped trailing carriage return.
pub proof fn lemma_trim_strip_cr(x: Seq<char>)
    ensures
        spec_trim(strip_cr(x)) == spec_trim(x),
    decreases x.len(),
{
    if x.len() > 0 && x.last() == '\r' {
        let y = x.drop_last();
        if is_space_char(x[0]) {
            if y.len() == 0 {
                assert(spec_trim_start(x) =~= spec_trim_start(x.drop_first()));
                assert(x.drop_first() =~= Seq::<char>::empty());
                assert(spec_trim(x) =~= Seq::<char>::empty());
                assert(spec_trim(y) =~= Seq::<char>::empty());
            } else {
                assert(x.drop_first().len() > 0);
                assert(x.drop_first().last() == '\r');
                lemma_trim_strip_cr(x.drop_first());
                assert(strip_cr(x.drop_first()) =~= y.drop_first());
                assert(spec_trim_start(x) == spec_trim_start(x.drop_first()));
                assert(y[0] == x[0]);
                assert(spec_trim_start(y) == spec_trim_start(y.drop_first()));
            }
        } else {
            assert(spec_trim_start(x) == x);
            assert(y.len() > 0);
            assert(y[0] == x[0]);
            assert(spec_trim_start(y) == y);
            assert(spec_trim_end(x) == spec_trim_end(y));
        }
    }
}

/// Trimming from the end keeps a prefix of the text.
pub proof fn lemma_trim_end_prefix(x: Seq<char>)
    ensures
        spec_trim_end(x).len() <= x.len(),
        forall|j: int|
            0 <= j < spec_trim_end(x).len() ==> #[trigger] spec_trim_end(x)[j] == x[j],
    decreases x.len(),
{
    if x.len() > 0 && is_space_char(x.last()) {
        lemma_trim_end_prefix(x.drop_last());
        assert forall|j: int|
            0 <= j < spec_trim_end(x).len() implies #[trigger] spec_trim_end(x)[j] == x[j] by {
            assert(spec_trim_end(x)[j] == spec_trim_end(x.drop_last())[j]);
            assert(x.drop_last()[j] == x[j]);
        }
    }
}

/// Trimming keeps only characters of the text: no newline appears in the
/// trim of a newline-free text.
pub proof fn lemma_trim_no_nl(x: Seq<char>)
    requires
        no_nl(x),
    ensures
        no_nl(spec_trim(x)),
    decreases x.len(),
{
    if x.len() > 0 && is_space_char(x[0]) {
        assert forall|j: int| 0 <= j < x.drop_first().len() implies x.drop_first()[j]
            != '\n' by {
            assert(x.drop_first()[j] == x[j + 1]);
        }
        lemma_trim_no_nl(x.drop_first());
    } else {
        lemma_trim_end_prefix(x);
        assert forall|j: int| 0 <= j < spec_trim(x).len() implies spec_trim(x)[j] != '\n' by {
            assert(spec_trim(x)[j] == x[j]);
        }
    }
}

} // verus!
