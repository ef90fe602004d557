//! Character-level helpers for text handled by the library.
use vstd::prelude::*;

verus! {

/// `String::push`. Trusted: the character is appended at the end.
#[verifier::external_body]
pub(crate) fn push_char(text: &mut String, c: char)
    ensures
        final(text)@ == old(text)@.push(c),
{
    text.push(c);
}

/// The characters of `text`, in order.
pub fn chars_of(text: &str) -> (r: Vec<char>)
    ensures
        r@ == text@,
{
    let mut out: Vec<char> = Vec::new();
    for c in it: text.chars()
        invariant
            out@ == it.seq().take(it.index() as int),
    {
        out.push(c);
    }
    out
}

/// A string holding the given characters.
pub fn string_of(chars: &Vec<char>) -> (r: String)
    ensures
        r@ == chars@,
{
    let mut out = String::new();
    let mut i: usize = 0;
    while i < chars.len()
        invariant
            i <= chars@.len(),
            out@ == chars@.take(i as int),
        decreases chars@.len() - i,
    {
        push_char(&mut out, chars[i]);
        assert(chars@.take(i + 1) =~= chars@.take(i as int).push(chars@[i as int]));
        i = i + 1;
    }
    assert(chars@.take(chars@.len() as int) =~= chars@);
    out
}

/// Whether two texts hold the same characters.
pub fn same_text(a: &str, b: &str) -> (r: bool)
    ensures
        r == (a@ == b@),
{
    let x = chars_of(a);
    let y = chars_of(b);
    if x.len() != y.len() {
        return false;
    }
    let mut i: usize = 0;
    while i < x.len()
        invariant
            i <= x@.len(),
            x@ == a@,
            y@ == b@,
            x@.len() == y@.len(),
            forall|j: int| 0 <= j < i ==> x@[j] == y@[j],
        decreases x@.len() - i,
    {
        if x[i] != y[i] {
            assert(x@[i as int] != y@[i as int]);
            return false;
        }
        i = i + 1;
    }
    assert(x@ =~= y@);
    true
}

/// Unicode White_Space: the characters that `char::is_whitespace` and `str::trim` treat
/// as space.
pub open spec fn is_space(c: char) -> bool {
    let u = c as u32;
    ||| 0x9 <= u <= 0xd
    ||| u == 0x20
    ||| u == 0x85
    ||| u == 0xa0
    ||| u == 0x1680
    ||| 0x2000 <= u <= 0x200a
    ||| u == 0x2028
    ||| u == 0x2029
    ||| u == 0x202f
    ||| u == 0x205f
    ||| u == 0x3000
}

/// Unicode general category Cc: the characters that `char::is_control` accepts.
pub open spec fn is_control(c: char) -> bool {
    let u = c as u32;
    u <= 0x1f || 0x7f <= u <= 0x9f
}

pub fn is_space_char(c: char) -> (r: bool)
    ensures
        r == is_space(c),
{
    let u = c as u32;
    (0x9 <= u && u <= 0xd) || u == 0x20 || u == 0x85 || u == 0xa0 || u == 0x1680 || (0x2000 <= u && u
        <= 0x200a) || u == 0x2028 || u == 0x2029 || u == 0x202f || u == 0x205f || u == 0x3000
}

pub fn is_control_char(c: char) -> (r: bool)
    ensures
        r == is_control(c),
{
    let u = c as u32;
    u <= 0x1f || (0x7f <= u && u <= 0x9f)
}

/// Number of consecutive characters from position `i` on that satisfy `p`.
pub open spec fn run_from(s: Seq<char>, i: int, p: spec_fn(char) -> bool) -> int
    decreases s.len() - i,
{
    if 0 <= i < s.len() && p(s[i]) {
        1 + run_from(s, i + 1, p)
    } else {
        0
    }
}

/// Number of consecutive characters before position `j` that satisfy `p`.
pub open spec fn run_before(s: Seq<char>, j: int, p: spec_fn(char) -> bool) -> int
    decreases j,
{
    if 0 < j <= s.len() && p(s[j - 1]) {
        1 + run_before(s, j - 1, p)
    } else {
        0
    }
}

pub open spec fn space() -> spec_fn(char) -> bool {
    |c: char| is_space(c)
}

/// `s` without leading and trailing white space, as `str::trim` gives it.
pub open spec fn trimmed(s: Seq<char>) -> Seq<char> {
    let a = run_from(s, 0, space());
    let b = s.len() - run_before(s, s.len() as int, space());
    if a >= b {
        Seq::empty()
    } else {
        s.subrange(a, b)
    }
}

/// Bounds of the trimmed part of `chars`.
pub fn trim_bounds(chars: &Vec<char>) -> (r: (usize, usize))
    ensures
        r.0 <= r.1 <= chars@.len(),
        chars@.subrange(r.0 as int, r.1 as int) == trimmed(chars@),
{
    let n = chars.len();
    let mut a: usize = 0;
    while a < n && is_space_char(chars[a])
        invariant
            a <= n == chars@.len(),
            run_from(chars@, 0, space()) == a + run_from(chars@, a as int, space()),
        decreases n - a,
    {
        a = a + 1;
    }
    let mut b: usize = n;
    while b > a && is_space_char(chars[b - 1])
        invariant
            a <= b <= n == chars@.len(),
            run_before(chars@, n as int, space()) == (n - b) + run_before(chars@, b as int, space()),
            forall|j: int| b <= j < n ==> is_space(chars@[j]),
        decreases b - a,
    {
        b = b - 1;
    }
    proof {
        if b == a {
            lemma_run_before_all(chars@, a as int, n as int);
            assert(trimmed(chars@) =~= chars@.subrange(a as int, b as int));
        }
    }
    (a, b)
}

/// When every character in `[a, j)` is space, the run before `j` reaches back to `a`.
proof fn lemma_run_before_all(s: Seq<char>, a: int, j: int)
    requires
        0 <= a <= j <= s.len(),
        forall|k: int| a <= k < j ==> is_space(s[k]),
    ensures
        run_before(s, j, space()) >= j - a,
    decreases j - a,
{
    if j > a {
        lemma_run_before_all(s, a, j - 1);
        assert(space()(s[j - 1]));
        assert(run_before(s, j, space()) == 1 + run_before(s, j - 1, space()));
    } else {
        lemma_run_before_nonneg(s, j, space());
    }
}

proof fn lemma_run_before_nonneg(s: Seq<char>, j: int, p: spec_fn(char) -> bool)
    ensures
        run_before(s, j, p) >= 0,
    decreases j,
{
    if 0 < j <= s.len() && p(s[j - 1]) {
        lemma_run_before_nonneg(s, j - 1, p);
    }
}

} // verus!
