use vstd::prelude::*;
use vstd::utf8::*;

verus! {

/// The characters of `s`, in order.
pub fn chars_of(s: &str) -> (v: Vec<char>)
    ensures
        v@ == s@,
{
    let mut v: Vec<char> = Vec::new();
    for c in it: s.chars()
        invariant
            v@ == it.history(),
    {
        v.push(c);
    }
    v
}

/// Whether two string slices hold the same characters.
pub fn str_eq(a: &str, b: &str) -> (res: bool)
    ensures
        res == (a@ == b@),
{
    let va = chars_of(a);
    let vb = chars_of(b);
    if va.len() != vb.len() {
        return false;
    }
    let mut i: usize = 0;
    while i < va.len()
        invariant
            va@ == a@,
            vb@ == b@,
            va.len() == vb.len(),
            i <= va.len(),
            forall|j: int| 0 <= j < i ==> va@[j] == vb@[j],
        decreases va.len() - i,
    {
        if va[i] != vb[i] {
            return false;
        }
        i = i + 1;
    }
    assert(va@ =~= vb@);
    true
}

// ---------------------------------------------------------------------------
// Splitting at the first occurrence of a delimiter
// ---------------------------------------------------------------------------

/// `r` is the position of the first `d` in `s`, or `s.len()` when `s` holds no `d`.
pub open spec fn is_first_index(s: Seq<char>, d: char, r: int) -> bool {
    &&& 0 <= r <= s.len()
    &&& forall|j: int| 0 <= j < r ==> s[j] != d
    &&& r < s.len() ==> s[r] == d
}

/// The position of the first `d` in `s`, or `s.len()` when there is none.
pub open spec fn first_index(s: Seq<char>, d: char) -> int {
    choose|r: int| is_first_index(s, d, r)
}

/// Whether `s` holds the delimiter `d` at all.
pub open spec fn holds(s: Seq<char>, d: char) -> bool {
    first_index(s, d) < s.len()
}

/// What comes before the first `d` (all of `s` when there is none): the first
/// piece that `split(d)` yields.
pub open spec fn before_first(s: Seq<char>, d: char) -> Seq<char> {
    s.take(first_index(s, d))
}

/// What comes after the first `d`; meaningful when `holds(s, d)`.
pub open spec fn after_first(s: Seq<char>, d: char) -> Seq<char> {
    s.skip(first_index(s, d) + 1)
}

pub proof fn lemma_first_index_unique(s: Seq<char>, d: char, r: int)
    requires
        is_first_index(s, d, r),
    ensures
        first_index(s, d) == r,
{
    let q = first_index(s, d);
    assert(is_first_index(s, d, q));
    if q < r {
        assert(s[q] == d);
    } else if r < q {
        assert(s[r] == d);
    }
}

/// A sequence that holds no `d` is its own first piece, and holds no `d`.
pub proof fn lemma_first_index_absent(s: Seq<char>, d: char)
    requires
        forall|i: int| 0 <= i < s.len() ==> s[i] != d,
    ensures
        first_index(s, d) == s.len(),
        !holds(s, d),
        before_first(s, d) == s,
{
    lemma_first_index_unique(s, d, s.len() as int);
    assert(s.take(s.len() as int) =~= s);
}

/// In `a`, then `d`, then `b`, where `a` holds no `d`, the first `d` is the
/// one right after `a`: the pieces are `a` and `b`.
pub proof fn lemma_first_index_after(a: Seq<char>, d: char, b: Seq<char>)
    requires
        forall|i: int| 0 <= i < a.len() ==> a[i] != d,
    ensures
        first_index(a + seq![d] + b, d) == a.len(),
        holds(a + seq![d] + b, d),
        before_first(a + seq![d] + b, d) == a,
        after_first(a + seq![d] + b, d) == b,
{
    let s = a + seq![d] + b;
    assert forall|j: int| 0 <= j < a.len() implies s[j] != d by {
        assert(s[j] == a[j]);
    }
    assert(s[a.len() as int] == d);
    lemma_first_index_unique(s, d, a.len() as int);
    assert(s.take(a.len() as int) =~= a);
    assert(s.skip(a.len() + 1int) =~= b);
}

/// Cuts `s` at its first `d`: the part before it, and the part after it when
/// `s` holds a `d` at all.
pub fn split_first<'a>(s: &'a str, d: char) -> (res: (&'a str, Option<&'a str>))
    ensures
        res.0@ == before_first(s@, d),
        res.1 is Some <==> holds(s@, d),
        res.1 matches Some(rest) ==> rest@ == after_first(s@, d),
{
    let v = chars_of(s);
    let mut i: usize = 0;
    while i < v.len() && v[i] != d
        invariant
            v@ == s@,
            i <= v.len(),
            forall|j: int| 0 <= j < i ==> v@[j] != d,
        decreases v.len() - i,
    {
        i = i + 1;
    }
    proof {
        lemma_first_index_unique(s@, d, i as int);
    }
    let head = s.substring_char(0, i);
    if i < v.len() {
        let rest = s.substring_char(i + 1, v.len());
        (head, Some(rest))
    } else {
        (head, None)
    }
}

// ---------------------------------------------------------------------------
// Facts taken from std
// ---------------------------------------------------------------------------

/// What `str::to_lowercase` makes of a string: its lowercase equivalent by the
/// Unicode `Lowercase` property.
pub uninterp spec fn lowercase(s: Seq<char>) -> Seq<char>;

/// Calls `str::to_lowercase`; the result is `lowercase` of the argument, a
/// function of the characters alone. Nothing more of the Unicode mapping is claimed.
#[verifier::external_body]
pub(crate) fn to_lowercase(s: &str) -> (res: String)
    ensures
        res@ == lowercase(s@),
{
    s.to_lowercase()
}

/// Whether a character has the Unicode `White_Space` property: the 25 code
/// points U+0009 to U+000D, U+0020, U+0085, U+00A0, U+1680, U+2000 to U+200A,
/// U+2028, U+2029, U+202F, U+205F and U+3000.
pub open spec fn white_space(c: char) -> bool {
    let u = c as u32;
    ||| 0x09 <= u <= 0x0d
    ||| u == 0x20
    ||| u == 0x85
    ||| u == 0xa0
    ||| u == 0x1680
    ||| 0x2000 <= u <= 0x200a
    ||| u == 0x2028
    ||| u == 0x2029
    ||| u == 0x202f
    ||| u == 0x205f
    ||| u == 0x3000
}

/// `c.is_whitespace()`: whether `c` has the Unicode `White_Space` property.
pub fn is_whitespace(c: char) -> (res: bool)
    ensures
        res == white_space(c),
{
    let u = c as u32;
    (0x09 <= u && u <= 0x0d) || u == 0x20 || u == 0x85 || u == 0xa0 || u == 0x1680
        || (0x2000 <= u && u <= 0x200a) || u == 0x2028 || u == 0x2029 || u == 0x202f
        || u == 0x205f || u == 0x3000
}

/// A line is blank when it holds nothing but white space; this is exactly
/// when trimming it leaves nothing.
pub open spec fn is_blank(s: Seq<char>) -> bool {
    forall|i: int| 0 <= i < s.len() ==> white_space(s[i])
}

/// Whether `s` holds nothing but white space (so that `s.trim()` is empty).
pub fn blank(s: &str) -> (res: bool)
    ensures
        res == is_blank(s@),
{
    let v = chars_of(s);
    let mut i: usize = 0;
    while i < v.len()
        invariant
            v@ == s@,
            i <= v.len(),
            forall|j: int| 0 <= j < i ==> white_space(v@[j]),
        decreases v.len() - i,
    {
        if !is_whitespace(v[i]) {
            return false;
        }
        i = i + 1;
    }
    true
}

/// Calls `std::str::from_utf8`: it succeeds exactly on valid UTF-8, and the
/// string it gives back is encoded by those very bytes.
#[verifier::external_body]
pub(crate) fn from_utf8(bytes: &[u8]) -> (res: Option<&str>)
    ensures
        res is Some <==> valid_utf8(bytes@),
        res matches Some(s) ==> s@ == decode_utf8(bytes@),
{
    std::str::from_utf8(bytes).ok()
}

/// Calls `String::push`: the character is appended at the end.
#[verifier::external_body]
pub(crate) fn push_char(s: &mut String, c: char)
    ensures
        final(s)@ == old(s)@.push(c),
{
    s.push(c);
}

} // verus!
