use crate::prompts::{decimal, decimal_chars};
use crate::text::{chars_of, push_chars, string_of, trim, trim_bounds, slice_chars};
use vstd::prelude::*;

verus! {

/// `s` with every occurrence of `pat` removed, scanning left to right as
/// `str::replace(pat, "")` does.
pub open spec fn remove_all(s: Seq<char>, pat: Seq<char>) -> Seq<char>
    decreases s.len(),
{
    if s.len() == 0 {
        Seq::empty()
    } else if pat.len() > 0 && pat.len() <= s.len() && s.subrange(0, pat.len() as int) == pat {
        remove_all(s.subrange(pat.len() as int, s.len() as int), pat)
    } else {
        seq![s[0]] + remove_all(s.subrange(1, s.len() as int), pat)
    }
}

/// Whether `pat` occurs in `v` at `at`.
fn occurs_at(v: &Vec<char>, at: usize, pat: &Vec<char>) -> (r: bool)
    requires
        at <= v@.len(),
    ensures
        r == (pat@.len() <= v@.len() - at && v@.subrange(at as int, at + pat@.len()) == pat@),
{
    let n = v.len();
    if pat.len() > n - at {
        return false;
    }
    let mut k: usize = 0;
    while k < pat.len()
        invariant
            n == v@.len(),
            k <= pat@.len() <= v@.len() - at,
            forall|j: int| 0 <= j < k ==> #[trigger] v@[at + j] == pat@[j],
        decreases pat@.len() - k,
    {
        if v[at + k] != pat[k] {
            assert(v@.subrange(at as int, at + pat@.len())[k as int] != pat@[k as int]);
            return false;
        }
        k += 1;
    }
    assert forall|j: int| 0 <= j < pat@.len() implies #[trigger] v@.subrange(at as int, at + pat@.len())[j] == pat@[j] by {
        assert(v@[at + j] == pat@[j]);
    }
    assert(v@.subrange(at as int, at + pat@.len()) =~= pat@);
    true
}

/// The characters of `v` with every occurrence of `pat` removed.
fn remove_occurrences(v: &Vec<char>, pat: &Vec<char>) -> (r: Vec<char>)
    ensures
        r@ == remove_all(v@, pat@),
{
    let mut out: Vec<char> = Vec::new();
    let mut i: usize = 0;
    let n = v.len();
    assert(v@.subrange(0, n as int) =~= v@);
    while i < n
        invariant
            i <= n == v@.len(),
            remove_all(v@, pat@) == out@ + remove_all(v@.subrange(i as int, n as int), pat@),
        decreases n - i,
    {
        let ghost rest = v@.subrange(i as int, n as int);
        if pat.len() > 0 && occurs_at(v, i, pat) {
            proof {
                assert(rest.subrange(0, pat@.len() as int) =~= v@.subrange(i as int, i + pat@.len()));
                assert(rest.subrange(pat@.len() as int, rest.len() as int) =~= v@.subrange(i + pat@.len(), n as int));
            }
            i += pat.len();
        } else {
            proof {
                if pat@.len() > 0 && pat@.len() <= rest.len() {
                    assert(rest.subrange(0, pat@.len() as int) =~= v@.subrange(i as int, i + pat@.len()));
                }
                assert(rest.subrange(1, rest.len() as int) =~= v@.subrange(i + 1, n as int));
                assert(rest[0] == v@[i as int]);
            }
            let ghost before = out@;
            out.push(v[i]);
            proof {
                assert(out@ =~= before + seq![v@[i as int]]);
                assert(before + (seq![v@[i as int]] + remove_all(v@.subrange(i + 1, n as int), pat@))
                    =~= out@ + remove_all(v@.subrange(i + 1, n as int), pat@));
            }
            i += 1;
        }
    }
    proof {
        assert(v@.subrange(n as int, n as int) =~= Seq::<char>::empty());
        assert(out@ + Seq::<char>::empty() =~= out@);
    }
    out
}

/// The mention of a user by id: `<@id>`.
pub open spec fn mention(id: nat) -> Seq<char> {
    "<@"@ + decimal(id) + ">"@
}

/// The nickname mention of a user by id: `<@!id>`.
pub open spec fn nick_mention(id: nat) -> Seq<char> {
    "<@!"@ + decimal(id) + ">"@
}

fn mention_chars(prefix: &str, bot_id: u64) -> (r: Vec<char>)
    ensures
        r@ == prefix@ + decimal(bot_id as nat) + ">"@,
{
    let mut v = chars_of(prefix);
    let d = decimal_chars(bot_id);
    push_chars(&mut v, &d);
    let close = chars_of(">");
    push_chars(&mut v, &close);
    v
}

/// `input` without the bot's mentions (`<@id>`, `<@!id>`), trimmed.
pub fn strip_bot_mentions(input: &str, bot_id: u64) -> (r: String)
    ensures
        r@ == trim(remove_all(remove_all(input@, mention(bot_id as nat)), nick_mention(bot_id as nat))),
{
    let v = chars_of(input);
    let m = mention_chars("<@", bot_id);
    let nick = mention_chars("<@!", bot_id);
    let once = remove_occurrences(&v, &m);
    let twice = remove_occurrences(&once, &nick);
    let (a, b) = trim_bounds(&twice, 0, twice.len());
    assert(twice@.subrange(0, twice@.len() as int) =~= twice@);
    string_of(&slice_chars(&twice, a, b))
}

} // verus!
