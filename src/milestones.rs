use crate::text::{lower_of, lowercase, chars_of, is_space, lead, slice_chars, space, string_of, trim, trim_bounds, trim_start};
use crate::prompts::string_views;
use vstd::prelude::*;

verus! {

pub open spec fn is_digit(c: char) -> bool {
    '0' <= c && c <= '9'
}

/// Number of leading ASCII digits of `s`.
pub open spec fn digit_run(s: Seq<char>) -> nat
    decreases s.len(),
{
    if s.len() > 0 && is_digit(s[0]) {
        1 + digit_run(s.subrange(1, s.len() as int))
    } else {
        0
    }
}

/// The text after a list number such as `3.` or `12)`, with the white space
/// around the marker removed; `None` when `line` does not start (after white
/// space) with digits and `.` or `)`, or nothing follows.
pub open spec fn numbered_item(line: Seq<char>) -> Option<Seq<char>> {
    let t = trim_start(line);
    let d = digit_run(t);
    let rest = trim_start(t.subrange(d as int, t.len() as int));
    if d == 0 {
        None
    } else if rest.len() > 0 && (rest[0] == '.' || rest[0] == ')') {
        let item = trim_start(rest.subrange(1, rest.len() as int));
        if item.len() == 0 {
            None
        } else {
            Some(item)
        }
    } else {
        None
    }
}

proof fn lemma_digit_run_step(s: Seq<char>, k: int)
    requires
        0 <= k <= s.len(),
        forall|i: int| 0 <= i < k ==> is_digit(#[trigger] s[i]),
    ensures
        digit_run(s) == k + digit_run(s.subrange(k, s.len() as int)),
    decreases k,
{
    if k > 0 {
        let t = s.subrange(1, s.len() as int);
        assert forall|i: int| 0 <= i < k - 1 implies is_digit(#[trigger] t[i]) by {
            assert(t[i] == s[i + 1]);
        }
        lemma_digit_run_step(t, k - 1);
        assert(t.subrange(k - 1, t.len() as int) =~= s.subrange(k, s.len() as int));
    } else {
        assert(s.subrange(0, s.len() as int) =~= s);
    }
}

/// Skips white space in `v` from `from`: the first index at or after `from`
/// holding another character (or `hi`).
fn skip_space(v: &Vec<char>, from: usize, hi: usize) -> (r: usize)
    requires
        from <= hi <= v@.len(),
    ensures
        from <= r <= hi,
        r - from == lead(v@.subrange(from as int, hi as int)),
{
    let ghost s = v@.subrange(from as int, hi as int);
    let mut a: usize = from;
    while a < hi && space(v[a])
        invariant
            from <= a <= hi <= v@.len(),
            s == v@.subrange(from as int, hi as int),
            forall|i: int| 0 <= i < a - from ==> is_space(#[trigger] s[i]),
        decreases hi - a,
    {
        assert(s[a - from] == v@[a as int]);
        a += 1;
    }
    proof {
        crate::text::lemma_lead_step(s, a - from);
        let t = s.subrange(a - from, s.len() as int);
        if t.len() > 0 {
            assert(t[0] == v@[a as int]);
        }
        assert(lead(t) == 0);
    }
    a
}

/// The item of a numbered list line (`1. text`, `2) text`), without the
/// number, marker and surrounding white space.
pub fn strip_numbered_prefix(line: &str) -> (r: Option<String>)
    ensures
        match r {
            Some(s) => numbered_item(line@) == Some(s@),
            None => numbered_item(line@) is None,
        },
{
    let v = chars_of(line);
    let n = v.len();
    let ghost s = v@;
    let a = skip_space(&v, 0, n);
    assert(s.subrange(0, n as int) =~= s);
    let ghost t = trim_start(s);
    assert(t =~= s.subrange(a as int, n as int));
    let mut d: usize = a;
    while d < n && '0' <= v[d] && v[d] <= '9'
        invariant
            a <= d <= n == v@.len(),
            t == v@.subrange(a as int, n as int),
            forall|i: int| 0 <= i < d - a ==> is_digit(#[trigger] t[i]),
        decreases n - d,
    {
        assert(t[d - a] == v@[d as int]);
        d += 1;
    }
    proof {
        lemma_digit_run_step(t, d - a);
        let u = t.subrange(d - a, t.len() as int);
        if u.len() > 0 {
            assert(u[0] == v@[d as int]);
        }
        assert(digit_run(u) == 0);
    }
    if d == a {
        return None;
    }
    let b = skip_space(&v, d, n);
    proof {
        assert(t.subrange((d - a) as int, t.len() as int) =~= v@.subrange(d as int, n as int));
        assert(trim_start(v@.subrange(d as int, n as int)) =~= v@.subrange(b as int, n as int));
    }
    if b < n && (v[b] == '.' || v[b] == ')') {
        let c = skip_space(&v, b + 1, n);
        proof {
            let rest = v@.subrange(b as int, n as int);
            assert(rest[0] == v@[b as int]);
            assert(rest.subrange(1, rest.len() as int) =~= v@.subrange(b + 1, n as int));
            assert(trim_start(v@.subrange(b + 1, n as int)) =~= v@.subrange(c as int, n as int));
        }
        if c == n {
            None
        } else {
            Some(string_of(&slice_chars(&v, c, n)))
        }
    } else {
        None
    }
}

/// Length of the first line of `s` (up to the first newline or the end).
pub open spec fn line_len(s: Seq<char>) -> nat
    decreases s.len(),
{
    if s.len() == 0 || s[0] == '\n' {
        0
    } else {
        1 + line_len(s.subrange(1, s.len() as int))
    }
}

/// `s` cut at each newline.
pub open spec fn split_lines(s: Seq<char>) -> Seq<Seq<char>>
    decreases s.len(),
{
    let k = line_len(s);
    if k >= s.len() {
        seq![s]
    } else {
        seq![s.subrange(0, k as int)] + split_lines(s.subrange(k as int + 1, s.len() as int))
    }
}

proof fn lemma_line_len(s: Seq<char>)
    ensures
        line_len(s) <= s.len(),
        decreases s.len(),
{
    if s.len() > 0 && s[0] != '\n' {
        lemma_line_len(s.subrange(1, s.len() as int));
    }
}

pub proof fn lemma_line_len_step(s: Seq<char>, k: int)
    requires
        0 <= k <= s.len(),
        forall|i: int| 0 <= i < k ==> #[trigger] s[i] != '\n',
        k < s.len() ==> s[k] == '\n',
    ensures
        line_len(s) == k,
    decreases k,
{
    if k > 0 {
        let t = s.subrange(1, s.len() as int);
        assert forall|i: int| 0 <= i < k - 1 implies #[trigger] t[i] != '\n' by {
            assert(t[i] == s[i + 1]);
        }
        if k < s.len() {
            assert(t[k - 1] == s[k]);
        }
        lemma_line_len_step(t, k - 1);
    }
}

/// Whether `t` reads `none` in any ASCII case.
pub open spec fn is_none_word(t: Seq<char>) -> bool {
    &&& t.len() == 4
    &&& (t[0] == 'n' || t[0] == 'N')
    &&& (t[1] == 'o' || t[1] == 'O')
    &&& (t[2] == 'n' || t[2] == 'N')
    &&& (t[3] == 'e' || t[3] == 'E')
}

/// The milestone a trimmed line offers: after `- ` or `* `, or after a list
/// number; `None` for any other line.
pub open spec fn line_item(t: Seq<char>) -> Option<Seq<char>> {
    if t.len() >= 2 && (t[0] == '-' || t[0] == '*') && t[1] == ' ' {
        Some(trim(t.subrange(2, t.len() as int)))
    } else {
        numbered_item(t)
    }
}

/// The list items found in `lines`, and whether a `None` line ended the
/// scan. Blank lines and lines without a list marker are skipped, as are
/// markers with nothing after them.
pub open spec fn candidates(lines: Seq<Seq<char>>) -> (Seq<Seq<char>>, bool)
    decreases lines.len(),
{
    if lines.len() == 0 {
        (Seq::empty(), false)
    } else {
        let (items, stopped) = candidates(lines.drop_last());
        let t = trim(lines.last());
        if stopped || t.len() == 0 {
            (items, stopped)
        } else if is_none_word(t) {
            (items, true)
        } else {
            match line_item(t) {
                Some(item) => if item.len() == 0 {
                    (items, false)
                } else {
                    (items.push(item), false)
                },
                None => (items, false),
            }
        }
    }
}

/// The items whose key did not occur earlier: the first item of each key, in order.
pub open spec fn first_of_each(items: Seq<Seq<char>>, keys: Seq<Seq<char>>) -> Seq<Seq<char>>
    decreases items.len(),
{
    if items.len() == 0 || keys.len() == 0 {
        Seq::empty()
    } else {
        let k = first_of_each(items.drop_last(), keys.drop_last());
        if keys.drop_last().contains(keys.last()) {
            k
        } else {
            k.push(items.last())
        }
    }
}

/// The first `max` elements of `s`.
pub open spec fn first_n(s: Seq<Seq<char>>, max: nat) -> Seq<Seq<char>> {
    if s.len() <= max {
        s
    } else {
        s.subrange(0, max as int)
    }
}

/// The milestones of a model response: its list items, the first of each
/// lower-case form, at most `max` of them.
pub open spec fn milestones_of(raw: Seq<char>, max: nat) -> Seq<Seq<char>> {
    let items = candidates(split_lines(raw)).0;
    first_n(first_of_each(items, items.map_values(|i: Seq<char>| lower_of(i))), max)
}

/// The items whose key did not occur before them, at most `max` of them, in
/// order; `keys[i]` is the key of `items[i]`.
pub fn first_distinct(items: &Vec<String>, keys: &Vec<String>, max: usize) -> (r: Vec<String>)
    requires
        items@.len() == keys@.len(),
    ensures
        string_views(r@) == first_n(first_of_each(string_views(items@), string_views(keys@)), max as nat),
{
    let ghost iv = string_views(items@);
    let ghost kv = string_views(keys@);
    let mut out: Vec<String> = Vec::new();
    let mut i: usize = 0;
    while i < items.len()
        invariant
            i <= items@.len() == keys@.len(),
            iv == string_views(items@),
            kv == string_views(keys@),
            string_views(out@) == first_of_each(iv.subrange(0, i as int), kv.subrange(0, i as int)),
        decreases items@.len() - i,
    {
        let mut seen = false;
        let mut j: usize = 0;
        while j < i
            invariant
                j <= i < keys@.len(),
                kv == string_views(keys@),
                seen == kv.subrange(0, j as int).contains(kv[i as int]),
            decreases i - j,
        {
            proof {
                assert(kv.subrange(0, j + 1) =~= kv.subrange(0, j as int).push(kv[j as int]));
            }
            if keys[j] == keys[i] {
                seen = true;
            }
            proof {
                let a = kv.subrange(0, j as int);
                let b = kv.subrange(0, j + 1);
                if b.contains(kv[i as int]) && !a.contains(kv[i as int]) {
                    let k = choose|k: int| 0 <= k < b.len() && b[k] == kv[i as int];
                    if k < j {
                        assert(a[k] == kv[i as int]);
                    }
                }
                if a.contains(kv[i as int]) {
                    let k = choose|k: int| 0 <= k < a.len() && a[k] == kv[i as int];
                    assert(b[k] == kv[i as int]);
                }
                if keys[j as int]@ == keys[i as int]@ {
                    assert(b[j as int] == kv[i as int]);
                }
            }
            j += 1;
        }
        proof {
            let pi = iv.subrange(0, i + 1);
            let pk = kv.subrange(0, i + 1);
            assert(pi.drop_last() =~= iv.subrange(0, i as int));
            assert(pk.drop_last() =~= kv.subrange(0, i as int));
            assert(pi.last() == items@[i as int]@);
            assert(pk.last() == kv[i as int]);
        }
        if !seen {
            let ghost before = out@;
            out.push(items[i].clone());
            proof {
                assert(string_views(out@) =~= string_views(before).push(items@[i as int]@));
            }
        }
        i += 1;
    }
    proof {
        assert(iv.subrange(0, i as int) =~= iv);
        assert(kv.subrange(0, i as int) =~= kv);
    }
    let ghost all = out@;
    out.truncate(max);
    proof {
        let sv = string_views(out@);
        if string_views(all).len() <= max {
            assert(sv =~= string_views(all));
        } else {
            assert(sv =~= string_views(all).subrange(0, max as int));
        }
    }
    out
}

/// The item of one line, as `line_item` gives it.
fn item_of(v: &Vec<char>, lo: usize, hi: usize) -> (r: Option<String>)
    requires
        lo <= hi <= v@.len(),
        v@.subrange(lo as int, hi as int) == trim(v@.subrange(lo as int, hi as int)),
    ensures
        match r {
            Some(s) => line_item(v@.subrange(lo as int, hi as int)) == Some(s@),
            None => line_item(v@.subrange(lo as int, hi as int)) is None,
        },
{
    let ghost t = v@.subrange(lo as int, hi as int);
    if hi - lo >= 2 && (v[lo] == '-' || v[lo] == '*') && v[lo + 1] == ' ' {
        assert(t[0] == v@[lo as int] && t[1] == v@[lo + 1]);
        let (a, b) = trim_bounds(v, lo + 2, hi);
        assert(t.subrange(2, t.len() as int) =~= v@.subrange(lo + 2, hi as int));
        Some(string_of(&slice_chars(v, a, b)))
    } else {
        proof {
            if t.len() >= 2 {
                assert(t[0] == v@[lo as int] && t[1] == v@[lo + 1]);
            }
        }
        let line = string_of(&slice_chars(v, lo, hi));
        strip_numbered_prefix(line.as_str())
    }
}

/// The milestones listed in a model response: lines starting with `- `, `* `
/// or a list number (`1.`, `2)`), trimmed, each kept once regardless of case
/// (the first of each lower-case form), at most `max` of them, in order. A
/// line reading `None` ends the list.
pub fn parse_milestones(raw: &str, max: usize) -> (r: Vec<String>)
    ensures
        string_views(r@) == milestones_of(raw@, max as nat),
{
    let v = chars_of(raw);
    let n = v.len();
    let ghost s = v@;
    let mut out: Vec<String> = Vec::new();
    let mut stopped = false;
    let mut pos: usize = 0;
    let mut done = false;
    let ghost mut lines: Seq<Seq<char>> = Seq::empty();
    proof {
        assert(s.subrange(0, n as int) =~= s);
    }
    while !done
        invariant
            n == v@.len(),
            s == v@,
            pos <= n,
            done ==> split_lines(s) == lines,
            !done ==> split_lines(s) == lines + split_lines(s.subrange(pos as int, n as int)),
            string_views(out@) == candidates(lines).0,
            stopped == candidates(lines).1,
        decreases n - pos + (if done { 0int } else { 1int }),
    {
        let mut e: usize = pos;
        while e < n && v[e] != '\n'
            invariant
                pos <= e <= n == v@.len(),
                forall|i: int| pos <= i < e ==> #[trigger] v@[i] != '\n',
            decreases n - e,
        {
            e += 1;
        }
        let ghost rest = s.subrange(pos as int, n as int);
        proof {
            assert forall|i: int| 0 <= i < e - pos implies #[trigger] rest[i] != '\n' by {
                assert(rest[i] == v@[pos + i]);
            }
            if e < n {
                assert(rest[e - pos] == v@[e as int]);
            }
            lemma_line_len_step(rest, e - pos);
            assert(rest.subrange(0, e - pos) =~= s.subrange(pos as int, e as int));
            if e < n {
                assert(rest.subrange(e - pos + 1, rest.len() as int) =~= s.subrange(e + 1, n as int));
            }
        }
        let ghost line = s.subrange(pos as int, e as int);
        let ghost prev = lines;
        proof {
            lines = lines.push(line);
            assert(lines.drop_last() =~= prev);
        }
        if !stopped {
            let (a, b) = trim_bounds(&v, pos, e);
            proof {
                crate::text::lemma_trim_idem(v@.subrange(a as int, b as int));
            }
            if a < b {
                let ghost t = v@.subrange(a as int, b as int);
                if b - a == 4 && (v[a] == 'n' || v[a] == 'N') && (v[a + 1] == 'o' || v[a + 1] == 'O')
                    && (v[a + 2] == 'n' || v[a + 2] == 'N') && (v[a + 3] == 'e' || v[a + 3] == 'E') {
                    assert(t[0] == v@[a as int] && t[1] == v@[a + 1] && t[2] == v@[a + 2] && t[3] == v@[a + 3]);
                    stopped = true;
                } else {
                    proof {
                        if t.len() == 4 {
                            assert(t[0] == v@[a as int] && t[1] == v@[a + 1] && t[2] == v@[a + 2] && t[3] == v@[a + 3]);
                        }
                    }
                    match item_of(&v, a, b) {
                        None => {},
                        Some(item) => {
                            if !item.as_str().is_empty() {
                                let ghost ov = out@;
                                out.push(item);
                                proof {
                                    assert(string_views(out@) =~= string_views(ov).push(item@));
                                }
                            }
                        },
                    }
                }
            }
        }
        if e < n {
            pos = e + 1;
            proof {
                assert(lines =~= prev + seq![line]);
            }
        } else {
            done = true;
            proof {
                assert(lines =~= prev + seq![line]);
            }
        }
    }
    let ghost items = candidates(lines).0;
    let mut keys: Vec<String> = Vec::new();
    let mut k: usize = 0;
    while k < out.len()
        invariant
            k <= out@.len(),
            items == string_views(out@),
            string_views(keys@) == items.subrange(0, k as int).map_values(|i: Seq<char>| lower_of(i)),
        decreases out@.len() - k,
    {
        let ghost before = keys@;
        keys.push(lowercase(out[k].as_str()));
        proof {
            assert(string_views(keys@) =~= string_views(before).push(lower_of(items[k as int])));
            assert(items.subrange(0, k + 1).map_values(|i: Seq<char>| lower_of(i)) =~= items.subrange(0, k as int).map_values(|i: Seq<char>| lower_of(i)).push(lower_of(items[k as int])));
        }
        k += 1;
    }
    assert(items.subrange(0, k as int) =~= items);
    first_distinct(&out, &keys, max)
}

} // verus!
