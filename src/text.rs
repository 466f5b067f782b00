use vstd::prelude::*;

verus! {

/// The characters of `s` in order.
pub fn chars_of(s: &str) -> (r: Vec<char>)
    ensures
        r@ == s@,
{
    let n = s.unicode_len();
    let mut out: Vec<char> = Vec::new();
    let mut i: usize = 0;
    while i < n
        invariant
            i <= n == s@.len(),
            out@ == s@.subrange(0, i as int),
        decreases n - i,
    {
        out.push(s.get_char(i));
        i += 1;
        assert(out@ =~= s@.subrange(0, i as int));
    }
    assert(s@.subrange(0, n as int) =~= s@);
    out
}

/// Relies on `String::from_iter` over characters: the string of `v`'s characters.
#[verifier::external_body]
pub(crate) fn string_of(v: &Vec<char>) -> (r: String)
    ensures
        r@ == v@,
{
    v.iter().collect()
}

/// What `str::to_lowercase` gives for a string.
pub uninterp spec fn lower_of(s: Seq<char>) -> Seq<char>;

/// Relies on `str::to_lowercase`: the result depends on the characters alone.
#[verifier::external_body]
pub(crate) fn lowercase(s: &str) -> (r: String)
    ensures
        r@ == lower_of(s@),
{
    s.to_lowercase()
}

/// Unicode `White_Space`, the property that `char::is_whitespace` and
/// `str::trim` go by.
pub open spec fn is_space(c: char) -> bool {
    ('\u{9}' <= c && c <= '\u{d}') || c == ' ' || c == '\u{85}' || c == '\u{a0}' || c
        == '\u{1680}' || ('\u{2000}' <= c && c <= '\u{200a}') || c == '\u{2028}' || c
        == '\u{2029}' || c == '\u{202f}' || c == '\u{205f}' || c == '\u{3000}'
}

pub fn space(c: char) -> (r: bool)
    ensures
        r == is_space(c),
{
    ('\u{9}' <= c && c <= '\u{d}') || c == ' ' || c == '\u{85}' || c == '\u{a0}' || c
        == '\u{1680}' || ('\u{2000}' <= c && c <= '\u{200a}') || c == '\u{2028}' || c
        == '\u{2029}' || c == '\u{202f}' || c == '\u{205f}' || c == '\u{3000}'
}

/// Number of leading white-space characters of `s`.
pub open spec fn lead(s: Seq<char>) -> nat
    decreases s.len(),
{
    if s.len() > 0 && is_space(s[0]) {
        1 + lead(s.subrange(1, s.len() as int))
    } else {
        0
    }
}

/// `s` without leading white space.
pub open spec fn trim_start(s: Seq<char>) -> Seq<char> {
    s.subrange(lead(s) as int, s.len() as int)
}

/// Number of trailing white-space characters of `s`.
pub open spec fn trail(s: Seq<char>) -> nat
    decreases s.len(),
{
    if s.len() > 0 && is_space(s.last()) {
        1 + trail(s.drop_last())
    } else {
        0
    }
}

/// `s` without trailing white space.
pub open spec fn trim_end(s: Seq<char>) -> Seq<char> {
    s.subrange(0, s.len() - trail(s))
}

/// `s` without leading or trailing white space, as `str::trim` gives it.
pub open spec fn trim(s: Seq<char>) -> Seq<char> {
    trim_end(trim_start(s))
}

proof fn lemma_lead_bound(s: Seq<char>)
    ensures
        lead(s) <= s.len(),
        forall|i: int| 0 <= i < lead(s) ==> is_space(#[trigger] s[i]),
        lead(s) < s.len() ==> !is_space(s[lead(s) as int]),
    decreases s.len(),
{
    if s.len() > 0 && is_space(s[0]) {
        let t = s.subrange(1, s.len() as int);
        lemma_lead_bound(t);
        assert forall|i: int| 0 <= i < lead(s) implies is_space(#[trigger] s[i]) by {
            if i > 0 {
                assert(s[i] == t[i - 1]);
            }
        }
        if lead(s) < s.len() {
            assert(s[lead(s) as int] == t[lead(t) as int]);
        }
    }
}

pub proof fn lemma_lead_step(s: Seq<char>, k: int)
    requires
        0 <= k <= s.len(),
        forall|i: int| 0 <= i < k ==> is_space(#[trigger] s[i]),
    ensures
        lead(s) == k + lead(s.subrange(k, s.len() as int)),
    decreases k,
{
    if k > 0 {
        let t = s.subrange(1, s.len() as int);
        assert forall|i: int| 0 <= i < k - 1 implies is_space(#[trigger] t[i]) by {
            assert(t[i] == s[i + 1]);
        }
        lemma_lead_step(t, k - 1);
        assert(t.subrange(k - 1, t.len() as int) =~= s.subrange(k, s.len() as int));
    } else {
        assert(s.subrange(0, s.len() as int) =~= s);
    }
}

proof fn lemma_trail_step(s: Seq<char>, k: int)
    requires
        0 <= k <= s.len(),
        forall|i: int| s.len() - k <= i < s.len() ==> is_space(#[trigger] s[i]),
    ensures
        trail(s) == k + trail(s.subrange(0, s.len() - k)),
    decreases k,
{
    if k > 0 {
        let t = s.drop_last();
        assert(s.last() == s[s.len() - 1]);
        assert forall|i: int| t.len() - (k - 1) <= i < t.len() implies is_space(#[trigger] t[i]) by {
            assert(t[i] == s[i]);
        }
        lemma_trail_step(t, k - 1);
        assert(t.subrange(0, t.len() - (k - 1)) =~= s.subrange(0, s.len() - k));
    } else {
        assert(s.subrange(0, s.len() as int) =~= s);
    }
}

/// The characters of `v[lo..hi]` without leading or trailing white space, as
/// the bounds of that part.
pub fn trim_bounds(v: &Vec<char>, lo: usize, hi: usize) -> (r: (usize, usize))
    requires
        lo <= hi <= v@.len(),
    ensures
        lo <= r.0 <= r.1 <= hi,
        v@.subrange(r.0 as int, r.1 as int) == trim(v@.subrange(lo as int, hi as int)),
        r.0 < r.1 ==> !is_space(v@[r.0 as int]) && !is_space(v@[r.1 - 1]),
{
    let ghost s = v@.subrange(lo as int, hi as int);
    let mut a: usize = lo;
    while a < hi && space(v[a])
        invariant
            lo <= a <= hi <= v@.len(),
            s == v@.subrange(lo as int, hi as int),
            forall|i: int| 0 <= i < a - lo ==> is_space(#[trigger] s[i]),
        decreases hi - a,
    {
        assert(s[a - lo] == v@[a as int]);
        a += 1;
    }
    proof {
        lemma_lead_step(s, a - lo);
        let t = s.subrange(a - lo, s.len() as int);
        if t.len() > 0 {
            assert(t[0] == v@[a as int]);
        }
        assert(lead(t) == 0);
        assert(trim_start(s) =~= v@.subrange(a as int, hi as int));
    }
    let ghost u = v@.subrange(a as int, hi as int);
    let mut b: usize = hi;
    while b > a && space(v[b - 1])
        invariant
            lo <= a <= b <= hi <= v@.len(),
            u == v@.subrange(a as int, hi as int),
            forall|i: int| u.len() - (hi - b) <= i < u.len() ==> is_space(#[trigger] u[i]),
        decreases b - a,
    {
        assert(u[b - 1 - a] == v@[b - 1]);
        b -= 1;
    }
    proof {
        lemma_trail_step(u, hi - b);
        let w = u.subrange(0, u.len() - (hi - b));
        assert(w =~= v@.subrange(a as int, b as int));
        if w.len() > 0 {
            assert(w.last() == v@[b - 1]);
        }
        assert(trail(w) == 0);
        assert(trim_end(u) =~= v@.subrange(a as int, b as int));
    }
    (a, b)
}

/// `s` without leading or trailing white space.
pub fn trimmed(s: &str) -> (r: Vec<char>)
    ensures
        r@ == trim(s@),
{
    let v = chars_of(s);
    let (a, b) = trim_bounds(&v, 0, v.len());
    assert(v@.subrange(0, v@.len() as int) =~= v@);
    slice_chars(&v, a, b)
}

/// The characters `v[lo..hi]`.
pub fn slice_chars(v: &Vec<char>, lo: usize, hi: usize) -> (r: Vec<char>)
    requires
        lo <= hi <= v@.len(),
    ensures
        r@ == v@.subrange(lo as int, hi as int),
{
    let mut out: Vec<char> = Vec::new();
    let mut i: usize = lo;
    while i < hi
        invariant
            lo <= i <= hi <= v@.len(),
            out@ == v@.subrange(lo as int, i as int),
        decreases hi - i,
    {
        out.push(v[i]);
        i += 1;
        assert(out@ =~= v@.subrange(lo as int, i as int));
    }
    out
}

/// Appends the characters of `s` to `out`.
pub fn push_str_chars(out: &mut Vec<char>, s: &str)
    ensures
        final(out)@ == old(out)@ + s@,
{
    let v = chars_of(s);
    push_chars(out, &v);
}

/// Appends the characters of `v` to `out`.
pub fn push_chars(out: &mut Vec<char>, v: &Vec<char>)
    ensures
        final(out)@ == old(out)@ + v@,
{
    let ghost start = out@;
    let mut i: usize = 0;
    while i < v.len()
        invariant
            i <= v@.len(),
            out@ == start + v@.subrange(0, i as int),
        decreases v@.len() - i,
    {
        out.push(v[i]);
        i += 1;
        assert(out@ =~= start + v@.subrange(0, i as int));
    }
    assert(v@.subrange(0, v@.len() as int) =~= v@);
}

/// Trimming a trimmed text changes nothing.
pub proof fn lemma_trim_idem(s: Seq<char>)
    requires
        s.len() == 0 || (!is_space(s[0]) && !is_space(s.last())),
    ensures
        trim(s) == s,
{
    if s.len() > 0 {
        assert(lead(s) == 0);
        assert(trim_start(s) =~= s);
        assert(trail(s) == 0);
        assert(trim_end(s) =~= s);
    } else {
        assert(trim_start(s) =~= s);
        assert(trim_end(s) =~= s);
    }
}

} // verus!
