use crate::milestones::{lemma_line_len_step, split_lines};
use crate::text::{chars_of, push_chars, push_str_chars, slice_chars, string_of, trim, trim_bounds};
use vstd::prelude::*;

verus! {

/// What `str::to_uppercase` gives for a string.
pub uninterp spec fn upper_of(s: Seq<char>) -> Seq<char>;

/// Relies on `str::to_uppercase`: the result depends on the characters alone.
#[verifier::external_body]
fn uppercase(s: &str) -> (r: String)
    ensures
        r@ == upper_of(s@),
{
    s.to_uppercase()
}

/// Most lines a stored memory keeps.
pub const MAX_MEMORY_LINES: usize = 6;

/// The first `max_chars` characters of `s`, followed by `...` when `s` is longer.
pub open spec fn truncated(s: Seq<char>, max_chars: nat) -> Seq<char> {
    if s.len() > max_chars {
        s.subrange(0, max_chars as int) + "..."@
    } else {
        s
    }
}

/// The first `max_chars` characters of `text`, followed by `...` when `text`
/// is longer.
pub fn truncate_chars(text: &str, max_chars: usize) -> (r: String)
    ensures
        r@ == truncated(text@, max_chars as nat),
{
    let v = chars_of(text);
    if v.len() > max_chars {
        let mut out = slice_chars(&v, 0, max_chars);
        push_str_chars(&mut out, "...");
        string_of(&out)
    } else {
        String::from_str(text)
    }
}

pub open spec fn not_cr(c: char) -> bool {
    c != '\r'
}

/// Whether `s` holds `pat` somewhere.
pub open spec fn holds(s: Seq<char>, pat: Seq<char>) -> bool {
    exists|i: int| 0 <= i <= s.len() - pat.len() && #[trigger] s.subrange(i, i + pat.len()) == pat
}

pub open spec fn all_ascii(s: Seq<char>) -> bool {
    forall|i: int| 0 <= i < s.len() ==> #[trigger] s[i] < '\u{80}'
}

/// The labels a model may put before a memory, in the order they are tried.
pub open spec fn memory_labels() -> Seq<Seq<char>> {
    seq!["UPDATED MEMORY:"@, "MEMORY:"@, "UPDATED SUMMARY:"@, "SUMMARY:"@]
}

/// The first label that the upper-cased text starts with, if any.
pub open spec fn label_index(upper: Seq<char>) -> Option<int> {
    if upper.len() >= 15 && upper.subrange(0, 15) == "UPDATED MEMORY:"@ {
        Some(0)
    } else if upper.len() >= 7 && upper.subrange(0, 7) == "MEMORY:"@ {
        Some(1)
    } else if upper.len() >= 16 && upper.subrange(0, 16) == "UPDATED SUMMARY:"@ {
        Some(2)
    } else if upper.len() >= 8 && upper.subrange(0, 8) == "SUMMARY:"@ {
        Some(3)
    } else {
        None
    }
}

/// `text` without a leading label (matched in upper case), trimmed again. The
/// label is cut where the text's own first characters are ASCII, so that they
/// stand one for one with the label.
pub open spec fn without_label(text: Seq<char>) -> Seq<char> {
    match label_index(upper_of(text)) {
        Some(k) => {
            let n = memory_labels()[k].len();
            if n <= text.len() && all_ascii(text.subrange(0, n as int)) {
                trim(text.subrange(n as int, text.len() as int))
            } else {
                text
            }
        },
        None => text,
    }
}

/// The trimmed, non-blank lines of `s`.
pub open spec fn nonblank_lines(s: Seq<char>) -> Seq<Seq<char>> {
    split_lines(s).filter_map(|l: Seq<char>| if trim(l).len() > 0 { Some(trim(l)) } else { None })
}

/// The memory a model response stands for: empty for a blank response or one
/// saying `NO_UPDATE`; otherwise the response without its label, as at most
/// six trimmed non-blank lines, cut to `max_chars` characters.
pub open spec fn normalized_memory(raw: Seq<char>, max_chars: nat) -> Seq<char> {
    let text = trim(raw).filter(|c: char| not_cr(c));
    if text.len() == 0 || holds(upper_of(text), "NO_UPDATE"@) {
        Seq::empty()
    } else {
        let lines = nonblank_lines(without_label(text));
        let kept = if lines.len() > MAX_MEMORY_LINES { lines.subrange(0, MAX_MEMORY_LINES as int) } else { lines };
        truncated(crate::prompts::join_lines(kept), max_chars)
    }
}

fn find_pattern(v: &Vec<char>, pat: &Vec<char>) -> (r: bool)
    requires
        pat@.len() > 0,
    ensures
        r == holds(v@, pat@),
{
    let n = v.len();
    let m = pat.len();
    if m > n {
        return false;
    }
    let mut i: usize = 0;
    while i <= n - m
        invariant
            n == v@.len(),
            m == pat@.len(),
            m <= n,
            i <= n - m + 1,
            forall|j: int| 0 <= j < i ==> #[trigger] v@.subrange(j, j + m) != pat@,
        decreases n - m + 1 - i,
    {
        let mut k: usize = 0;
        let mut same = true;
        while k < m
            invariant
                k <= m,
                i + m <= n == v@.len(),
                m == pat@.len(),
                same == (forall|j: int| 0 <= j < k ==> #[trigger] v@[i + j] == pat@[j]),
            decreases m - k,
        {
            if v[i + k] != pat[k] {
                same = false;
            }
            k += 1;
        }
        if same {
            assert forall|j: int| 0 <= j < m implies #[trigger] v@.subrange(i as int, i + m)[j] == pat@[j] by {
                assert(v@[i + j] == pat@[j]);
            }
            assert(v@.subrange(i as int, i + m) =~= pat@);
            return true;
        } else {
            let ghost j0 = choose|j: int| 0 <= j < m && v@[i + j] != pat@[j];
            assert(v@.subrange(i as int, i + m)[j0] != pat@[j0]);
        }
        i += 1;
    }
    false
}

fn starts_with_lit(v: &Vec<char>, lit: &str) -> (r: bool)
    ensures
        r == (lit@.len() <= v@.len() && v@.subrange(0, lit@.len() as int) == lit@),
{
    let p = chars_of(lit);
    if p.len() > v.len() {
        return false;
    }
    let mut k: usize = 0;
    while k < p.len()
        invariant
            p@ == lit@,
            k <= p@.len() <= v@.len(),
            forall|j: int| 0 <= j < k ==> #[trigger] v@[j] == p@[j],
        decreases p@.len() - k,
    {
        if v[k] != p[k] {
            assert(v@.subrange(0, p@.len() as int)[k as int] != p@[k as int]);
            return false;
        }
        k += 1;
    }
    assert(v@.subrange(0, p@.len() as int) =~= p@);
    true
}

fn label_len(upper: &Vec<char>) -> (r: usize)
    ensures
        match label_index(upper@) {
            Some(k) => r == memory_labels()[k].len(),
            None => r == 0,
        },
{
    proof {
        reveal_strlit("UPDATED MEMORY:");
        reveal_strlit("MEMORY:");
        reveal_strlit("UPDATED SUMMARY:");
        reveal_strlit("SUMMARY:");
    }
    if starts_with_lit(upper, "UPDATED MEMORY:") {
        15
    } else if starts_with_lit(upper, "MEMORY:") {
        7
    } else if starts_with_lit(upper, "UPDATED SUMMARY:") {
        16
    } else if starts_with_lit(upper, "SUMMARY:") {
        8
    } else {
        0
    }
}

/// The bounds of each line of `v` (cut at newlines).
fn line_bounds(v: &Vec<char>) -> (r: Vec<(usize, usize)>)
    ensures
        r@.len() == split_lines(v@).len(),
        forall|i: int| 0 <= i < r@.len() ==> (#[trigger] r@[i]).0 <= r@[i].1 <= v@.len()
            && v@.subrange(r@[i].0 as int, r@[i].1 as int) == split_lines(v@)[i],
{
    let n = v.len();
    let ghost s = v@;
    let mut out: Vec<(usize, usize)> = Vec::new();
    let mut pos: usize = 0;
    let mut done = false;
    let ghost mut lines: Seq<Seq<char>> = Seq::empty();
    proof {
        assert(s.subrange(0, n as int) =~= s);
    }
    while !done
        invariant
            n == v@.len(),
            s == v@,
            pos <= n,
            done ==> split_lines(s) == lines,
            !done ==> split_lines(s) == lines + split_lines(s.subrange(pos as int, n as int)),
            out@.len() == lines.len(),
            forall|i: int| 0 <= i < out@.len() ==> (#[trigger] out@[i]).0 <= out@[i].1 <= n
                && s.subrange(out@[i].0 as int, out@[i].1 as int) == lines[i],
        decreases n - pos + (if done { 0int } else { 1int }),
    {
        let mut e: usize = pos;
        while e < n && v[e] != '\n'
            invariant
                pos <= e <= n == v@.len(),
                forall|i: int| pos <= i < e ==> #[trigger] v@[i] != '\n',
            decreases n - e,
        {
            e += 1;
        }
        let ghost rest = s.subrange(pos as int, n as int);
        proof {
            assert forall|i: int| 0 <= i < e - pos implies #[trigger] rest[i] != '\n' by {
                assert(rest[i] == v@[pos + i]);
            }
            if e < n {
                assert(rest[e - pos] == v@[e as int]);
            }
            lemma_line_len_step(rest, e - pos);
            assert(rest.subrange(0, e - pos) =~= s.subrange(pos as int, e as int));
            if e < n {
                assert(rest.subrange(e - pos + 1, rest.len() as int) =~= s.subrange(e + 1, n as int));
            }
        }
        let ghost line = s.subrange(pos as int, e as int);
        let ghost prev = lines;
        out.push((pos, e));
        proof {
            lines = lines.push(line);
        }
        if e < n {
            pos = e + 1;
            proof {
                assert(lines =~= prev + seq![line]);
            }
        } else {
            done = true;
            proof {
                assert(lines =~= prev + seq![line]);
            }
        }
    }
    out
}

/// A model's memory response as stored: blank or `NO_UPDATE` gives nothing;
/// otherwise carriage returns and a leading label (`UPDATED MEMORY:`,
/// `MEMORY:`, `UPDATED SUMMARY:`, `SUMMARY:`) are removed, and at most six
/// trimmed non-blank lines are kept, cut to `max_chars` characters.
pub fn normalize_memory(raw: &str, max_chars: usize) -> (r: String)
    ensures
        r@ == normalized_memory(raw@, max_chars as nat),
{
    let t = crate::text::trimmed(raw);
    let ghost tv = t@;
    let mut text: Vec<char> = Vec::new();
    let mut i: usize = 0;
    while i < t.len()
        invariant
            i <= t@.len(),
            text@ == t@.subrange(0, i as int).filter(|c: char| not_cr(c)),
        decreases t@.len() - i,
    {
        proof {
            crate::seq_facts::lemma_filter_prefix_step(t@, |c: char| not_cr(c), i as int);
        }
        if t[i] != '\r' {
            text.push(t[i]);
        }
        i += 1;
    }
    assert(t@.subrange(0, t@.len() as int) =~= t@);
    if text.len() == 0 {
        return String::new();
    }
    let text_str = string_of(&text);
    let upper = chars_of(uppercase(text_str.as_str()).as_str());
    let marker = chars_of("NO_UPDATE");
    proof {
        reveal_strlit("NO_UPDATE");
    }
    if find_pattern(&upper, &marker) {
        return String::new();
    }
    let k = label_len(&upper);
    let mut body = text;
    if k > 0 && k <= body.len() {
        let mut ascii = true;
        let mut j: usize = 0;
        while j < k
            invariant
                j <= k <= body@.len(),
                ascii == (forall|q: int| 0 <= q < j ==> #[trigger] body@[q] < '\u{80}'),
            decreases k - j,
        {
            if body[j] >= '\u{80}' {
                ascii = false;
            }
            j += 1;
        }
        proof {
            assert(ascii == all_ascii(body@.subrange(0, k as int))) by {
                if !ascii {
                    let q = choose|q: int| 0 <= q < k && !(body@[q] < '\u{80}');
                    assert(body@.subrange(0, k as int)[q] == body@[q]);
                }
                if ascii {
                    assert forall|q: int| 0 <= q < k implies #[trigger] body@.subrange(0, k as int)[q] < '\u{80}' by {
                        assert(body@.subrange(0, k as int)[q] == body@[q]);
                    }
                }
            }
        }
        if ascii {
            let (a, b) = trim_bounds(&body, k, body.len());
            body = slice_chars(&body, a, b);
        }
    }
    proof {
        let tx = t@.filter(|c: char| not_cr(c));
        assert(text_str@ == tx);
        match label_index(upper_of(tx)) {
            Some(q) => {
                assert(memory_labels()[q].len() == k);
            },
            None => {},
        }
        assert(body@ == without_label(tx));
    }
    let bounds = line_bounds(&body);
    let ghost f = |l: Seq<char>| if trim(l).len() > 0 { Some(trim(l)) } else { None };
    let ghost all = split_lines(body@);
    let mut kept: Vec<Vec<char>> = Vec::new();
    let mut li: usize = 0;
    while li < bounds.len()
        invariant
            li <= bounds@.len() == all.len(),
            all == split_lines(body@),
            forall|i: int| 0 <= i < bounds@.len() ==> (#[trigger] bounds@[i]).0 <= bounds@[i].1 <= body@.len()
                && body@.subrange(bounds@[i].0 as int, bounds@[i].1 as int) == all[i],
            kept@.map_values(|x: Vec<char>| x@) == all.subrange(0, li as int).filter_map(f),
            f == (|l: Seq<char>| if trim(l).len() > 0 { Some(trim(l)) } else { None }),
        decreases bounds@.len() - li,
    {
        proof {
            crate::seq_facts::lemma_filter_map_prefix_step(all, f, 0, li as int);
        }
        let (lo, hi) = bounds[li];
        let (a, b) = trim_bounds(&body, lo, hi);
        if a < b {
            let ghost before = kept@;
            kept.push(slice_chars(&body, a, b));
            proof {
                assert(kept@.map_values(|x: Vec<char>| x@) =~= before.map_values(|x: Vec<char>| x@).push(body@.subrange(a as int, b as int)));
            }
        }
        li += 1;
    }
    proof {
        assert(all.subrange(0, li as int) =~= all);
    }
    let ghost lines = kept@.map_values(|x: Vec<char>| x@);
    let count: usize = if kept.len() > MAX_MEMORY_LINES { MAX_MEMORY_LINES } else { kept.len() };
    let mut joined: Vec<char> = Vec::new();
    let mut q: usize = 0;
    while q < count
        invariant
            q <= count <= kept@.len(),
            lines == kept@.map_values(|x: Vec<char>| x@),
            joined@ == crate::prompts::join_lines(lines.subrange(0, q as int)),
        decreases count - q,
    {
        let ghost before = joined@;
        if q > 0 {
            push_str_chars(&mut joined, "\n");
        }
        push_chars(&mut joined, &kept[q]);
        proof {
            let p = lines.subrange(0, q + 1);
            assert(p.drop_last() =~= lines.subrange(0, q as int));
            assert(p.last() == kept@[q as int]@);
            if q == 0 {
                assert(joined@ =~= p[0]);
            }
        }
        q += 1;
    }
    proof {
        if lines.len() <= MAX_MEMORY_LINES {
            assert(lines.subrange(0, q as int) =~= lines);
        }
    }
    let joined_str = string_of(&joined);
    truncate_chars(joined_str.as_str(), max_chars)
}

} // verus!
