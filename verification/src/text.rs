//! Character-level string helpers shared by the parsers.
use vstd::prelude::*;

verus! {

broadcast use vstd::string::group_string_axioms;

/// `String::push` appends one character to the end of the string.
#[verifier::external_body]
pub(crate) fn push_char(s: &mut String, c: char)
    ensures
        final(s)@ == old(s)@.push(c),
{
    s.push(c);
}

/// The characters of `s`, in order.
pub fn chars_of(s: &str) -> (v: Vec<char>)
    ensures
        v@ == s@,
{
    let mut v: Vec<char> = Vec::new();
    for c in it: s.chars()
        invariant
            v@ == it.seq().take(it.index() as int),
    {
        v.push(c);
    }
    v
}

/// A string holding the characters `v[lo..hi]`.
pub fn string_from(v: &Vec<char>, lo: usize, hi: usize) -> (s: String)
    requires
        lo <= hi <= v.len(),
    ensures
        s@ == v@.subrange(lo as int, hi as int),
{
    let mut s = String::new();
    let mut k: usize = lo;
    while k < hi
        invariant
            lo <= k <= hi <= v.len(),
            s@ == v@.subrange(lo as int, k as int),
        decreases hi - k,
    {
        push_char(&mut s, v[k]);
        k += 1;
    }
    s
}

/// Unicode `White_Space`, the property that `char::is_whitespace` and
/// `str::trim` use.
pub open spec fn is_white_space(c: char) -> bool {
    let u = c as u32;
    ||| 0x09 <= u <= 0x0D
    ||| u == 0x20
    ||| u == 0x85
    ||| u == 0xA0
    ||| u == 0x1680
    ||| 0x2000 <= u <= 0x200A
    ||| u == 0x2028
    ||| u == 0x2029
    ||| u == 0x202F
    ||| u == 0x205F
    ||| u == 0x3000
}

/// Whether `c` is Unicode white space.
pub fn white_space(c: char) -> (b: bool)
    ensures
        b == is_white_space(c),
{
    let u: u32 = c as u32;
    (0x09 <= u && u <= 0x0D) || u == 0x20 || u == 0x85 || u == 0xA0 || u == 0x1680 || (0x2000
        <= u && u <= 0x200A) || u == 0x2028 || u == 0x2029 || u == 0x202F || u == 0x205F || u
        == 0x3000
}

/// `s` without its leading white space.
pub open spec fn trim_start(s: Seq<char>) -> Seq<char>
    decreases s.len(),
{
    if s.len() > 0 && is_white_space(s[0]) {
        trim_start(s.drop_first())
    } else {
        s
    }
}

/// `s` without its trailing white space.
pub open spec fn trim_end(s: Seq<char>) -> Seq<char>
    decreases s.len(),
{
    if s.len() > 0 && is_white_space(s.last()) {
        trim_end(s.drop_last())
    } else {
        s
    }
}

/// `s` without leading and trailing white space.
pub open spec fn trim(s: Seq<char>) -> Seq<char> {
    trim_end(trim_start(s))
}

/// The index of the first character of `v[lo..hi]` that is not white space,
/// or `hi`; `v[lo..hi]` with its leading white space removed starts there.
pub(crate) fn skip_white_front(v: &Vec<char>, lo: usize, hi: usize) -> (a: usize)
    requires
        lo <= hi <= v.len(),
    ensures
        lo <= a <= hi,
        trim_start(v@.subrange(lo as int, hi as int)) == v@.subrange(a as int, hi as int),
{
    let mut a: usize = lo;
    while a < hi && white_space(v[a])
        invariant
            lo <= a <= hi <= v.len(),
            trim_start(v@.subrange(lo as int, hi as int)) == trim_start(
                v@.subrange(a as int, hi as int),
            ),
        decreases hi - a,
    {
        assert(v@.subrange(a as int, hi as int).drop_first() =~= v@.subrange(a + 1, hi as int));
        a += 1;
    }
    a
}

/// The index just past the last character of `v[lo..hi]` that is not
/// white space, or `lo`; `v[lo..hi]` with its trailing white space removed
/// ends there.
pub(crate) fn skip_white_back(v: &Vec<char>, lo: usize, hi: usize) -> (b: usize)
    requires
        lo <= hi <= v.len(),
    ensures
        lo <= b <= hi,
        trim_end(v@.subrange(lo as int, hi as int)) == v@.subrange(lo as int, b as int),
{
    let mut b: usize = hi;
    while b > lo && white_space(v[b - 1])
        invariant
            lo <= b <= hi <= v.len(),
            trim_end(v@.subrange(lo as int, hi as int)) == trim_end(
                v@.subrange(lo as int, b as int),
            ),
        decreases b - lo,
    {
        assert(v@.subrange(lo as int, b as int).drop_last() =~= v@.subrange(lo as int, b - 1));
        b -= 1;
    }
    b
}

/// `v[lo..hi]` without leading and trailing white space.
pub fn trim_range(v: &Vec<char>, lo: usize, hi: usize) -> (r: String)
    requires
        lo <= hi <= v.len(),
    ensures
        r@ == trim(v@.subrange(lo as int, hi as int)),
{
    let a: usize = skip_white_front(v, lo, hi);
    let b: usize = skip_white_back(v, a, hi);
    string_from(v, a, b)
}

/// Whether two strings hold the same characters.
pub fn same_text(a: &str, b: &str) -> (r: bool)
    ensures
        r == (a@ == b@),
{
    let x = chars_of(a);
    let y = chars_of(b);
    if x.len() != y.len() {
        return false;
    }
    let mut k: usize = 0;
    while k < x.len()
        invariant
            k <= x.len() == y.len(),
            x@ == a@,
            y@ == b@,
            forall|m: int| 0 <= m < k ==> x@[m] == y@[m],
        decreases x.len() - k,
    {
        if x[k] != y[k] {
            assert(x@[k as int] != y@[k as int]);
            return false;
        }
        k += 1;
    }
    assert(x@ =~= y@);
    true
}


/// Whether every character of `s` is white space.
pub open spec fn all_white(s: Seq<char>) -> bool {
    forall|k: int| 0 <= k < s.len() ==> is_white_space(#[trigger] s[k])
}

proof fn lemma_trim_start_split(x: Seq<char>) -> (k: int)
    ensures
        0 <= k <= x.len(),
        trim_start(x) == x.subrange(k, x.len() as int),
        all_white(x.subrange(0, k)),
        k < x.len() ==> !is_white_space(x[k]),
    decreases x.len(),
{
    if x.len() > 0 && is_white_space(x[0]) {
        let k1 = lemma_trim_start_split(x.drop_first());
        assert(x.drop_first().subrange(k1, x.drop_first().len() as int) =~= x.subrange(
            k1 + 1,
            x.len() as int,
        ));
        assert forall|m: int| 0 <= m < k1 + 1 implies is_white_space(
            #[trigger] x.subrange(0, k1 + 1)[m],
        ) by {
            if m > 0 {
                assert(x.subrange(0, k1 + 1)[m] == x.drop_first().subrange(0, k1)[m - 1]);
            }
        }
        if k1 + 1 < x.len() {
            assert(x[k1 + 1] == x.drop_first()[k1]);
        }
        k1 + 1
    } else {
        assert(x.subrange(0, x.len() as int) =~= x);
        0
    }
}

proof fn lemma_trim_end_split(y: Seq<char>) -> (j: int)
    ensures
        0 <= j <= y.len(),
        trim_end(y) == y.subrange(0, j),
        all_white(y.subrange(j, y.len() as int)),
        j > 0 ==> !is_white_space(y[j - 1]),
    decreases y.len(),
{
    if y.len() > 0 && is_white_space(y.last()) {
        let j1 = lemma_trim_end_split(y.drop_last());
        assert(y.drop_last().subrange(0, j1) =~= y.subrange(0, j1));
        assert forall|m: int| 0 <= m < y.len() - j1 implies is_white_space(
            #[trigger] y.subrange(j1, y.len() as int)[m],
        ) by {
            if j1 + m < y.len() - 1 {
                assert(y.subrange(j1, y.len() as int)[m] == y.drop_last().subrange(
                    j1,
                    y.len() - 1,
                )[m]);
            }
        }
        if j1 > 0 {
            assert(y[j1 - 1] == y.drop_last()[j1 - 1]);
        }
        j1
    } else {
        assert(y.subrange(0, y.len() as int) =~= y);
        assert(y.subrange(y.len() as int, y.len() as int).len() == 0);
        y.len() as int
    }
}

/// Whether `n` neither starts nor ends with white space.
pub open spec fn bare(n: Seq<char>) -> bool {
    n.len() > 0 ==> !is_white_space(n[0]) && !is_white_space(n.last())
}

/// Trimming removes exactly the white space around a text: the text is its
/// leading white space, the trimmed text and its trailing white space, in
/// that order, and the trimmed text neither starts nor ends with white
/// space.
pub proof fn lemma_trim_shape(x: Seq<char>)
    ensures
        bare(trim(x)),
        exists|a: Seq<char>, b: Seq<char>| all_white(a) && all_white(b) && x == a + trim(x) + b,
{
    let k = lemma_trim_start_split(x);
    let y = trim_start(x);
    let j = lemma_trim_end_split(y);
    let t = trim(x);
    assert(t == y.subrange(0, j));
    if t.len() > 0 {
        assert(t[0] == y[0] && y[0] == x[k]);
        assert(t.last() == y[j - 1]);
    }
    let a = x.subrange(0, k);
    let b = y.subrange(j, y.len() as int);
    assert(x =~= a + t + b);
}

} // verus!
