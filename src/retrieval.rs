use vstd::multiset::Multiset;
use vstd::prelude::*;

verus! {

/// One message returned by a search. `timestamp` is in the store's
/// `%Y-%m-%d %H:%M:%S` UTC text form.
pub struct MessageResult {
    pub content: String,
    pub user_id: String,
    pub timestamp: String,
    pub channel_id: String,
}

/// What shapes a search: a channel allow-list (empty for all channels), date
/// bounds in seconds since the Unix epoch, and a result limit (zero for the
/// default).
pub struct SearchFilter {
    pub channels: Vec<String>,
    pub from_date: Option<i64>,
    pub to_date: Option<i64>,
    pub limit: usize,
}

/// Result count when a filter asks for none.
pub const DEFAULT_LIMIT: usize = 5;

/// Largest result count a filter may ask for.
pub const MAX_LIMIT: usize = 100;

/// Most candidates the vector search scores.
pub const MAX_CANDIDATES: usize = 5000;

/// The result count a filter's `limit` stands for.
pub open spec fn limit_for(limit: nat) -> nat {
    if limit == 0 {
        DEFAULT_LIMIT as nat
    } else if limit > MAX_LIMIT {
        MAX_LIMIT as nat
    } else {
        limit
    }
}

/// The result count that `limit` stands for: 5 for zero, otherwise `limit`
/// capped at 100.
pub fn effective_limit(limit: usize) -> (r: usize)
    ensures
        r == limit_for(limit as nat),
        1 <= r <= MAX_LIMIT,
{
    if limit == 0 {
        DEFAULT_LIMIT
    } else if limit > MAX_LIMIT {
        MAX_LIMIT
    } else {
        limit
    }
}

impl SearchFilter {
    /// A filter over all channels and dates with the default limit.
    pub fn new() -> (r: SearchFilter)
        ensures
            r.channels@.len() == 0,
            r.from_date is None,
            r.to_date is None,
            r.limit == 0,
    {
        SearchFilter { channels: Vec::new(), from_date: None, to_date: None, limit: 0 }
    }

    pub fn with_limit(self, limit: usize) -> (r: SearchFilter)
        ensures
            r.limit == limit,
            r.channels == self.channels,
            r.from_date == self.from_date,
            r.to_date == self.to_date,
    {
        SearchFilter { limit, ..self }
    }

    pub fn with_from_date(self, from: i64) -> (r: SearchFilter)
        ensures
            r.from_date == Some(from),
            r.channels == self.channels,
            r.to_date == self.to_date,
            r.limit == self.limit,
    {
        SearchFilter { from_date: Some(from), ..self }
    }

    pub fn with_to_date(self, to: i64) -> (r: SearchFilter)
        ensures
            r.to_date == Some(to),
            r.channels == self.channels,
            r.from_date == self.from_date,
            r.limit == self.limit,
    {
        SearchFilter { to_date: Some(to), ..self }
    }

    pub fn with_channel(self, channel_id: String) -> (r: SearchFilter)
        ensures
            r.channels@ == self.channels@.push(channel_id),
            r.from_date == self.from_date,
            r.to_date == self.to_date,
            r.limit == self.limit,
    {
        let mut channels = self.channels;
        channels.push(channel_id);
        SearchFilter { channels, ..self }
    }
}

impl Default for SearchFilter {
    fn default() -> (r: SearchFilter)
        ensures
            r.channels@.len() == 0,
            r.from_date is None,
            r.to_date is None,
            r.limit == 0,
    {
        SearchFilter::new()
    }
}

// ---------------------------------------------------------------------------
// Parameterized SQL

/// A value bound to one `?` of a statement.
pub enum SqlParam {
    Text(String),
    Integer(i64),
    Blob(Vec<u8>),
    Null,
}

/// A statement and the values bound to its `?` placeholders, in order.
pub struct SqlQuery {
    pub sql: String,
    pub params: Vec<SqlParam>,
}

pub enum ParamView {
    Text(Seq<char>),
    Integer(int),
    Blob(Seq<u8>),
    Null,
}

pub open spec fn param_view(p: SqlParam) -> ParamView {
    match p {
        SqlParam::Text(s) => ParamView::Text(s@),
        SqlParam::Integer(i) => ParamView::Integer(i as int),
        SqlParam::Blob(b) => ParamView::Blob(b@),
        SqlParam::Null => ParamView::Null,
    }
}

pub open spec fn params_view(ps: Seq<SqlParam>) -> Seq<ParamView> {
    ps.map_values(|p: SqlParam| param_view(p))
}

/// The store's text form of a time, `%Y-%m-%d %H:%M:%S` in UTC, for a count of
/// seconds since the Unix epoch; `None` where the time is out of range.
pub uninterp spec fn utc_text(secs: int) -> Option<Seq<char>>;

/// Relies on chrono's `DateTime::from_timestamp` and `format`: the store's
/// text form of the time, when chrono can represent it.
#[verifier::external_body]
pub(crate) fn format_utc(secs: i64) -> (r: Option<String>)
    ensures
        match r {
            Some(t) => utc_text(secs as int) == Some(t@),
            None => utc_text(secs as int) is None,
        },
{
    match chrono::DateTime::from_timestamp(secs, 0) {
        Some(t) => Some(t.format("%Y-%m-%d %H:%M:%S").to_string()),
        None => None,
    }
}

pub open spec fn keyword_select() -> Seq<char> {
    "SELECT m.content, m.user_id, m.timestamp, m.channel_id FROM messages m LEFT JOIN channel_settings s ON m.channel_id = s.channel_id WHERE (s.enabled IS NULL OR s.enabled = 1) AND (s.memory_start_date IS NULL OR m.timestamp >= s.memory_start_date)"@
}

pub open spec fn vector_select() -> Seq<char> {
    "SELECT m.content, m.user_id, m.timestamp, m.channel_id, m.embedding FROM messages m LEFT JOIN channel_settings s ON m.channel_id = s.channel_id WHERE (s.enabled IS NULL OR s.enabled = 1) AND (s.memory_start_date IS NULL OR m.timestamp >= s.memory_start_date) AND m.embedding IS NOT NULL"@
}

/// `n` placeholders separated by commas.
pub open spec fn placeholders(n: nat) -> Seq<char>
    decreases n,
{
    if n == 0 {
        Seq::empty()
    } else if n == 1 {
        "?"@
    } else {
        placeholders((n - 1) as nat) + ", ?"@
    }
}

/// The clauses after the text match: channel allow-list, date bounds, order
/// and limit.
pub open spec fn filter_clauses(n_channels: nat, has_from: bool, has_to: bool) -> Seq<char> {
    (if n_channels > 0 {
        " AND m.channel_id IN ("@ + placeholders(n_channels) + ")"@
    } else {
        Seq::empty()
    }) + (if has_from {
        " AND m.timestamp >= ?"@
    } else {
        Seq::empty()
    }) + (if has_to {
        " AND m.timestamp <= ?"@
    } else {
        Seq::empty()
    }) + " ORDER BY m.timestamp DESC LIMIT ?"@
}

/// Statement text of a keyword search. It depends on the shape of the search
/// alone, never on the text searched for or the channel ids. The text match is
/// `instr(content, text) > 0`: a plain, case-sensitive substring match, in
/// which no character of the text acts as a wildcard.
pub open spec fn keyword_sql(has_text: bool, n_channels: nat, has_from: bool, has_to: bool) -> Seq<char> {
    keyword_select() + (if has_text {
        " AND instr(m.content, ?) > 0"@
    } else {
        Seq::empty()
    }) + filter_clauses(n_channels, has_from, has_to)
}

/// Statement text of the vector candidate scan.
pub open spec fn vector_sql(n_channels: nat, has_from: bool, has_to: bool) -> Seq<char> {
    vector_select() + filter_clauses(n_channels, has_from, has_to)
}

pub open spec fn opt_param(t: Option<Seq<char>>) -> Seq<ParamView> {
    match t {
        Some(x) => seq![ParamView::Text(x)],
        None => Seq::empty(),
    }
}

pub open spec fn date_text(d: Option<i64>) -> Option<Seq<char>> {
    match d {
        Some(secs) => utc_text(secs as int),
        None => None,
    }
}

/// The values bound after the text match.
pub open spec fn filter_params(f: SearchFilter, row_limit: int) -> Seq<ParamView> {
    f.channels@.map_values(|c: String| ParamView::Text(c@)) + opt_param(date_text(f.from_date))
        + opt_param(date_text(f.to_date)) + seq![ParamView::Integer(row_limit)]
}

/// The values bound to a keyword search: the text itself (when not empty),
/// then the filter's values.
pub open spec fn keyword_params(text: Seq<char>, f: SearchFilter) -> Seq<ParamView> {
    (if text.len() > 0 {
        seq![ParamView::Text(text)]
    } else {
        Seq::empty()
    }) + filter_params(f, limit_for(f.limit as nat) as int)
}

/// Whether each date bound of the filter has a text form.
pub open spec fn dates_writable(f: SearchFilter) -> bool {
    &&& (f.from_date is Some ==> date_text(f.from_date) is Some)
    &&& (f.to_date is Some ==> date_text(f.to_date) is Some)
}

fn push_date(params: &mut Vec<SqlParam>, d: Option<i64>) -> (ok: bool)
    ensures
        ok == (d is Some ==> date_text(d) is Some),
        ok ==> params_view(final(params)@) == params_view(old(params)@) + opt_param(date_text(d)),
{
    match d {
        None => {
            proof {
                assert(params_view(params@) + opt_param(date_text(d)) =~= params_view(params@));
            }
            true
        },
        Some(secs) => match format_utc(secs) {
            None => false,
            Some(t) => {
                let ghost before = params@;
                params.push(SqlParam::Text(t));
                proof {
                    assert(params_view(params@) =~= params_view(before) + opt_param(date_text(d)));
                }
                true
            },
        },
    }
}

/// Appends the filter clauses and their values.
fn push_filter(sql: &mut String, params: &mut Vec<SqlParam>, f: &SearchFilter, row_limit: usize) -> (ok: bool)
    requires
        row_limit <= MAX_CANDIDATES,
    ensures
        ok == dates_writable(*f),
        ok ==> final(sql)@ == old(sql)@ + filter_clauses(
            f.channels@.len(),
            f.from_date is Some,
            f.to_date is Some,
        ),
        ok ==> params_view(final(params)@) == params_view(old(params)@) + filter_params(
            *f,
            row_limit as int,
        ),
{
    let ghost sql0 = sql@;
    let ghost p0 = params@;
    let n = f.channels.len();
    if n > 0 {
        sql.append(" AND m.channel_id IN (");
        let mut i: usize = 0;
        while i < n
            invariant
                i <= n == f.channels@.len(),
                sql@ == sql0 + " AND m.channel_id IN ("@ + placeholders(i as nat),
                params_view(params@) == params_view(p0) + f.channels@.subrange(0, i as int).map_values(
                    |c: String| ParamView::Text(c@),
                ),
            decreases n - i,
        {
            let ghost before = params@;
            if i == 0 {
                sql.append("?");
            } else {
                sql.append(", ?");
            }
            let c = f.channels[i].clone();
            params.push(SqlParam::Text(c));
            proof {
                let g = |c: String| ParamView::Text(c@);
                assert(params_view(params@) =~= params_view(before).push(ParamView::Text(c@)));
                assert(f.channels@.subrange(0, i + 1).map_values(g) =~= f.channels@.subrange(0, i as int).map_values(g).push(ParamView::Text(f.channels@[i as int]@)));
            }
            i += 1;
        }
        sql.append(")");
    } else {
        assert(f.channels@.subrange(0, 0).map_values(|c: String| ParamView::Text(c@)) =~= Seq::<ParamView>::empty());
    }
    proof {
        assert(f.channels@.subrange(0, n as int) =~= f.channels@);
    }
    let ghost pa = params@;
    if f.from_date.is_some() {
        sql.append(" AND m.timestamp >= ?");
    }
    if f.to_date.is_some() {
        sql.append(" AND m.timestamp <= ?");
    }
    sql.append(" ORDER BY m.timestamp DESC LIMIT ?");
    let ok_from = push_date(params, f.from_date);
    if !ok_from {
        return false;
    }
    let ghost pb = params@;
    let ok_to = push_date(params, f.to_date);
    if !ok_to {
        return false;
    }
    let ghost pc = params@;
    params.push(SqlParam::Integer(row_limit as i64));
    proof {
        assert(params_view(params@) =~= params_view(pc).push(ParamView::Integer(row_limit as int)));
        assert(sql@ =~= sql0 + filter_clauses(f.channels@.len(), f.from_date is Some, f.to_date is Some));
        assert(params_view(params@) =~= params_view(p0) + filter_params(*f, row_limit as int));
    }
    true
}

/// The keyword search statement for `text` and `f`: messages whose content
/// holds `text` as a substring (any message when `text` is empty) within the channel scope
/// settings and the filter, newest first, at most the filter's result count.
/// The text and channel ids are bound as values, never written into the
/// statement. `None` when a date bound has no text form.
pub fn keyword_query(text: &str, f: &SearchFilter) -> (r: Option<SqlQuery>)
    ensures
        r is Some <==> dates_writable(*f),
        r matches Some(q) ==> q.sql@ == keyword_sql(
            text@.len() > 0,
            f.channels@.len(),
            f.from_date is Some,
            f.to_date is Some,
        ) && params_view(q.params@) == keyword_params(text@, *f),
{
    let mut sql = String::from_str(
        "SELECT m.content, m.user_id, m.timestamp, m.channel_id FROM messages m LEFT JOIN channel_settings s ON m.channel_id = s.channel_id WHERE (s.enabled IS NULL OR s.enabled = 1) AND (s.memory_start_date IS NULL OR m.timestamp >= s.memory_start_date)",
    );
    let mut params: Vec<SqlParam> = Vec::new();
    let ghost sql0 = sql@;
    if !text.is_empty() {
        sql.append(" AND instr(m.content, ?) > 0");
        params.push(SqlParam::Text(String::from_str(text)));
    }
    let limit = effective_limit(f.limit);
    if !push_filter(&mut sql, &mut params, f, limit) {
        return None;
    }
    proof {
        assert(params_view(params@) =~= keyword_params(text@, *f));
        assert(sql@ =~= keyword_sql(text@.len() > 0, f.channels@.len(), f.from_date is Some, f.to_date is Some));
    }
    Some(SqlQuery { sql, params })
}


/// The vector candidate scan for `f`: messages with a stored embedding within
/// the channel scope settings and the filter, newest first, at most
/// `MAX_CANDIDATES` of them. `None` when a date bound has no text form.
pub fn vector_query(f: &SearchFilter) -> (r: Option<SqlQuery>)
    ensures
        r is Some <==> dates_writable(*f),
        r matches Some(q) ==> q.sql@ == vector_sql(
            f.channels@.len(),
            f.from_date is Some,
            f.to_date is Some,
        ) && params_view(q.params@) == filter_params(*f, MAX_CANDIDATES as int),
{
    let mut sql = String::from_str(
        "SELECT m.content, m.user_id, m.timestamp, m.channel_id, m.embedding FROM messages m LEFT JOIN channel_settings s ON m.channel_id = s.channel_id WHERE (s.enabled IS NULL OR s.enabled = 1) AND (s.memory_start_date IS NULL OR m.timestamp >= s.memory_start_date) AND m.embedding IS NOT NULL",
    );
    let mut params: Vec<SqlParam> = Vec::new();
    if !push_filter(&mut sql, &mut params, f, MAX_CANDIDATES) {
        return None;
    }
    proof {
        assert(params_view(params@) =~= filter_params(*f, MAX_CANDIDATES as int));
    }
    Some(SqlQuery { sql, params })
}

// ---------------------------------------------------------------------------
// Ranking

/// A vector-search candidate and its score. `score` is the bit pattern of a
/// non-negative IEEE-754 single-precision similarity; for non-negative values
/// the bit patterns order as the values do.
pub struct ScoredMessage {
    pub score: u32,
    pub message: MessageResult,
}

/// `x` placed after every element of `sorted` whose score is at least its own.
pub open spec fn insert_ranked(sorted: Seq<ScoredMessage>, x: ScoredMessage) -> Seq<ScoredMessage>
    decreases sorted.len(),
{
    if sorted.len() == 0 {
        seq![x]
    } else if sorted.last().score >= x.score {
        sorted.push(x)
    } else {
        insert_ranked(sorted.drop_last(), x).push(sorted.last())
    }
}

/// `s` sorted by score, highest first; equal scores keep their order in `s`.
pub open spec fn ranked(s: Seq<ScoredMessage>) -> Seq<ScoredMessage>
    decreases s.len(),
{
    if s.len() == 0 {
        Seq::empty()
    } else {
        insert_ranked(ranked(s.drop_last()), s.last())
    }
}

/// The first `n` elements of `s` (all of them when there are fewer).
pub open spec fn take<A>(s: Seq<A>, n: nat) -> Seq<A> {
    if s.len() <= n {
        s
    } else {
        s.subrange(0, n as int)
    }
}

pub open spec fn messages_of(s: Seq<ScoredMessage>) -> Seq<MessageResult> {
    s.map_values(|x: ScoredMessage| x.message)
}

proof fn lemma_insert_ranked_step(t: Seq<ScoredMessage>, x: ScoredMessage, j: int)
    requires
        0 < j <= t.len(),
        t[j - 1].score < x.score,
    ensures
        insert_ranked(t.subrange(0, j), x) + t.subrange(j, t.len() as int) == insert_ranked(
            t.subrange(0, j - 1),
            x,
        ) + t.subrange(j - 1, t.len() as int),
{
    let a = t.subrange(0, j);
    assert(a.last() == t[j - 1]);
    assert(a.drop_last() =~= t.subrange(0, j - 1));
    let b = insert_ranked(t.subrange(0, j - 1), x);
    assert(b.push(t[j - 1]) + t.subrange(j, t.len() as int) =~= b + t.subrange(j - 1, t.len() as int));
}

/// Inserts `x` into `out` after every element whose score is at least its own.
fn insert_by_score(out: &mut Vec<ScoredMessage>, x: ScoredMessage)
    ensures
        final(out)@ == insert_ranked(old(out)@, x),
{
    let mut j: usize = out.len();
    assert(out@.subrange(0, j as int) =~= out@);
    assert(insert_ranked(out@, x) =~= insert_ranked(out@.subrange(0, j as int), x) + out@.subrange(j as int, out@.len() as int));
    while j > 0 && out[j - 1].score < x.score
        invariant
            j <= out@.len(),
            insert_ranked(out@, x) == insert_ranked(out@.subrange(0, j as int), x) + out@.subrange(
                j as int,
                out@.len() as int,
            ),
        decreases j,
    {
        proof {
            lemma_insert_ranked_step(out@, x, j as int);
        }
        j -= 1;
    }
    let ghost t = out@;
    proof {
        let a = t.subrange(0, j as int);
        if j > 0 {
            assert(a.last() == t[j - 1]);
        }
        assert(insert_ranked(a, x) =~= a.push(x));
    }
    out.insert(j, x);
    assert(out@ =~= t.subrange(0, j as int).push(x) + t.subrange(j as int, t.len() as int));
}

/// The messages of the first `limit` candidates once sorted by score, highest
/// first; candidates with equal scores keep their order.
pub fn rank_candidates(candidates: Vec<ScoredMessage>, limit: usize) -> (r: Vec<MessageResult>)
    ensures
        r@ == messages_of(take(ranked(candidates@), limit as nat)),
{
    let ghost s = candidates@;
    let mut rest = candidates;
    let mut out: Vec<ScoredMessage> = Vec::new();
    let ghost mut i: int = 0;
    while rest.len() > 0
        invariant
            0 <= i <= s.len(),
            rest@ == s.subrange(i, s.len() as int),
            out@ == ranked(s.subrange(0, i)),
        decreases rest@.len(),
    {
        let x = rest.remove(0);
        proof {
            assert(x == s[i]);
            let p = s.subrange(0, i + 1);
            assert(p.drop_last() =~= s.subrange(0, i));
            assert(p.last() == s[i]);
        }
        insert_by_score(&mut out, x);
        proof {
            i = i + 1;
            assert(rest@ =~= s.subrange(i, s.len() as int));
        }
    }
    proof {
        assert(s.subrange(0, i) =~= s);
    }
    let ghost full = out@;
    out.truncate(limit);
    let ghost t = out@;
    assert(t == take(full, limit as nat));
    let mut res: Vec<MessageResult> = Vec::new();
    let ghost mut k: int = 0;
    while out.len() > 0
        invariant
            0 <= k <= t.len(),
            out@ == t.subrange(k, t.len() as int),
            res@ == messages_of(t.subrange(0, k)),
        decreases out@.len(),
    {
        let x = out.remove(0);
        proof {
            assert(x == t[k]);
        }
        res.push(x.message);
        proof {
            k = k + 1;
            assert(res@ =~= messages_of(t.subrange(0, k)));
            assert(out@ =~= t.subrange(k, t.len() as int));
        }
    }
    proof {
        assert(t.subrange(0, k) =~= t);
    }
    res
}

// ---------------------------------------------------------------------------
// Merging

/// Two results stand for the same message: same channel, time, author and content.
pub open spec fn same_message(a: MessageResult, b: MessageResult) -> bool {
    &&& a.channel_id@ == b.channel_id@
    &&& a.timestamp@ == b.timestamp@
    &&& a.user_id@ == b.user_id@
    &&& a.content@ == b.content@
}

pub open spec fn seen_in(s: Seq<MessageResult>, m: MessageResult) -> bool {
    exists|i: int| 0 <= i < s.len() && same_message(#[trigger] s[i], m)
}

/// `s` keeping only the first result for each message.
pub open spec fn dedup(s: Seq<MessageResult>) -> Seq<MessageResult>
    decreases s.len(),
{
    if s.len() == 0 {
        Seq::empty()
    } else {
        let d = dedup(s.drop_last());
        if seen_in(d, s.last()) {
            d
        } else {
            d.push(s.last())
        }
    }
}

fn same_message_exec(a: &MessageResult, b: &MessageResult) -> (r: bool)
    ensures
        r == same_message(*a, *b),
{
    a.channel_id == b.channel_id && a.timestamp == b.timestamp && a.user_id == b.user_id
        && a.content == b.content
}

fn seen_exec(s: &Vec<MessageResult>, m: &MessageResult) -> (r: bool)
    ensures
        r == seen_in(s@, *m),
{
    let mut i: usize = 0;
    while i < s.len()
        invariant
            i <= s@.len(),
            forall|k: int| 0 <= k < i ==> !same_message(#[trigger] s@[k], *m),
        decreases s@.len() - i,
    {
        if same_message_exec(&s[i], m) {
            return true;
        }
        i += 1;
    }
    false
}

/// `primary` then `secondary`, keeping the first result for each message
/// (same channel, time, author and content), cut to `limit` results.
pub fn merge_results(primary: Vec<MessageResult>, secondary: Vec<MessageResult>, limit: usize) -> (r: Vec<MessageResult>)
    ensures
        r@ == take(dedup(primary@ + secondary@), limit as nat),
{
    let mut rest = primary;
    let mut second = secondary;
    rest.append(&mut second);
    let ghost s = rest@;
    let mut out: Vec<MessageResult> = Vec::new();
    let ghost mut i: int = 0;
    while rest.len() > 0
        invariant
            0 <= i <= s.len(),
            rest@ == s.subrange(i, s.len() as int),
            out@ == take(dedup(s.subrange(0, i)), limit as nat),
        decreases rest@.len(),
    {
        let x = rest.remove(0);
        proof {
            assert(x == s[i]);
            let p = s.subrange(0, i + 1);
            assert(p.drop_last() =~= s.subrange(0, i));
            assert(p.last() == s[i]);
        }
        if out.len() < limit {
            if !seen_exec(&out, &x) {
                out.push(x);
            }
        }
        proof {
            i = i + 1;
            assert(rest@ =~= s.subrange(i, s.len() as int));
            let d = dedup(s.subrange(0, i - 1));
            let d2 = dedup(s.subrange(0, i));
            if d.len() >= limit {
                assert(d2.subrange(0, limit as int) =~= d.subrange(0, limit as int));
            }
        }
    }
    proof {
        assert(s.subrange(0, i) =~= s);
    }
    out
}

// ---------------------------------------------------------------------------
// Search plan

/// The statements one search runs, and its result count.
pub struct SearchPlan {
    pub vector: Option<SqlQuery>,
    pub keyword: Option<SqlQuery>,
    pub limit: usize,
}

/// Decides which searches to run for `query`, a query embedding of
/// `embedding_len` values, and `f`. With no embedding, only the keyword search
/// runs. Otherwise the vector scan runs, and the keyword search too when the
/// query holds more than white space; their results are then ranked and
/// merged. `None` when a date bound has no text form.
pub fn plan_search(query: &str, embedding_len: usize, f: &SearchFilter) -> (r: Option<SearchPlan>)
    ensures
        r is Some <==> dates_writable(*f),
        r matches Some(p) ==> {
            &&& p.limit == limit_for(f.limit as nat)
            &&& (embedding_len == 0 ==> p.vector is None && p.keyword is Some)
            &&& (embedding_len > 0 ==> p.vector is Some && (p.keyword is Some <==> crate::text::trim(
                query@,
            ).len() > 0))
            &&& (p.vector matches Some(v) ==> v.sql@ == vector_sql(
                f.channels@.len(),
                f.from_date is Some,
                f.to_date is Some,
            ) && params_view(v.params@) == filter_params(*f, MAX_CANDIDATES as int))
            &&& (p.keyword matches Some(k) ==> k.sql@ == keyword_sql(
                query@.len() > 0,
                f.channels@.len(),
                f.from_date is Some,
                f.to_date is Some,
            ) && params_view(k.params@) == keyword_params(query@, *f))
        },
{
    let limit = effective_limit(f.limit);
    if embedding_len == 0 {
        match keyword_query(query, f) {
            None => None,
            Some(k) => Some(SearchPlan { vector: None, keyword: Some(k), limit }),
        }
    } else {
        let v = match vector_query(f) {
            None => {
                return None;
            },
            Some(v) => v,
        };
        let t = crate::text::trimmed(query);
        if t.len() == 0 {
            Some(SearchPlan { vector: Some(v), keyword: None, limit })
        } else {
            match keyword_query(query, f) {
                None => None,
                Some(k) => Some(SearchPlan { vector: Some(v), keyword: Some(k), limit }),
            }
        }
    }
}

// ---------------------------------------------------------------------------
// Laws

/// The keyword statement is the same text for any two non-empty search texts
/// and for any channel ids of the same count: what is searched for only ever
/// travels as a bound value, so no search text can change the statement.
pub proof fn lemma_statement_ignores_search_text(
    t1: Seq<char>,
    t2: Seq<char>,
    f1: SearchFilter,
    f2: SearchFilter,
)
    requires
        t1.len() > 0,
        t2.len() > 0,
        f1.channels@.len() == f2.channels@.len(),
        f1.from_date is Some == f2.from_date is Some,
        f1.to_date is Some == f2.to_date is Some,
    ensures
        keyword_sql(true, f1.channels@.len(), f1.from_date is Some, f1.to_date is Some)
            == keyword_sql(true, f2.channels@.len(), f2.from_date is Some, f2.to_date is Some),
        keyword_params(t1, f1)[0] == ParamView::Text(t1),
{
}

pub open spec fn sorted_by_score(s: Seq<ScoredMessage>) -> bool {
    forall|i: int, j: int| 0 <= i < j < s.len() ==> #[trigger] s[i].score >= #[trigger] s[j].score
}

proof fn lemma_insert_ranked(t: Seq<ScoredMessage>, x: ScoredMessage)
    requires
        sorted_by_score(t),
    ensures
        sorted_by_score(insert_ranked(t, x)),
        insert_ranked(t, x).to_multiset() == t.to_multiset().insert(x),
        insert_ranked(t, x).len() == t.len() + 1,
    decreases t.len(),
{
    broadcast use vstd::multiset::group_multiset_axioms;
    broadcast use vstd::seq_lib::group_to_multiset_ensures;
    let r = insert_ranked(t, x);
    if t.len() == 0 {
        assert(r =~= Seq::<ScoredMessage>::empty().push(x));
    } else if t.last().score >= x.score {
        assert forall|i: int, j: int| 0 <= i < j < r.len() implies #[trigger] r[i].score >= #[trigger] r[j].score by {
            if j == r.len() - 1 {
                assert(r[i] == t[i]);
                assert(t[i].score >= t[t.len() - 1].score || i == t.len() - 1);
            } else {
                assert(r[i] == t[i] && r[j] == t[j]);
            }
        }
    } else {
        let u = t.drop_last();
        assert forall|i: int, j: int| 0 <= i < j < u.len() implies #[trigger] u[i].score >= #[trigger] u[j].score by {
            assert(u[i] == t[i] && u[j] == t[j]);
        }
        lemma_insert_ranked(u, x);
        let v = insert_ranked(u, x);
        assert forall|i: int, j: int| 0 <= i < j < r.len() implies #[trigger] r[i].score >= #[trigger] r[j].score by {
            if j == r.len() - 1 {
                assert(r[i] == v[i]);
                assert(v.to_multiset().count(v[i]) > 0);
                assert(u.to_multiset().insert(x).count(v[i]) > 0);
                if v[i] != x {
                    assert(u.to_multiset().count(v[i]) > 0);
                    assert(u.contains(v[i]));
                    let k = choose|k: int| 0 <= k < u.len() && u[k] == v[i];
                    assert(t[k] == u[k]);
                }
            } else {
                assert(r[i] == v[i] && r[j] == v[j]);
            }
        }
        assert(t == u.push(t.last()));
        assert(t.to_multiset() == u.to_multiset().insert(t.last()));
        assert(r.to_multiset() =~= t.to_multiset().insert(x));
    }
}

/// Ranking sorts the candidates by score, highest first, and loses or adds
/// none: the best-scoring candidate comes first.
pub proof fn lemma_ranked_sorted(s: Seq<ScoredMessage>)
    ensures
        sorted_by_score(ranked(s)),
        ranked(s).to_multiset() == s.to_multiset(),
        ranked(s).len() == s.len(),
        forall|k: int| 0 <= k < s.len() ==> ranked(s)[0].score >= #[trigger] s[k].score,
    decreases s.len(),
{
    broadcast use vstd::multiset::group_multiset_axioms;
    broadcast use vstd::seq_lib::group_to_multiset_ensures;
    if s.len() > 0 {
        let u = s.drop_last();
        lemma_ranked_sorted(u);
        lemma_insert_ranked(ranked(u), s.last());
        assert(s == u.push(s.last()));
        let r = ranked(s);
        assert forall|k: int| 0 <= k < s.len() implies r[0].score >= #[trigger] s[k].score by {
            assert(s.to_multiset().count(s[k]) > 0);
            assert(r.to_multiset().count(s[k]) > 0);
            assert(r.contains(s[k]));
            let j = choose|j: int| 0 <= j < r.len() && r[j] == s[k];
            if j > 0 {
                assert(r[0].score >= r[j].score);
            }
        }
    } else {
        assert(s.to_multiset() =~= Multiset::empty());
        assert(ranked(s).to_multiset() =~= Multiset::empty());
    }
}

pub open spec fn no_repeats(s: Seq<MessageResult>) -> bool {
    forall|i: int, j: int| 0 <= i < j < s.len() ==> !same_message(#[trigger] s[i], #[trigger] s[j])
}

proof fn lemma_dedup(s: Seq<MessageResult>)
    ensures
        no_repeats(dedup(s)),
        forall|i: int| 0 <= i < s.len() ==> seen_in(dedup(s), #[trigger] s[i]),
        forall|i: int| 0 <= i < dedup(s).len() ==> seen_in(s, #[trigger] dedup(s)[i]),
        no_repeats(s) ==> dedup(s) == s,
    decreases s.len(),
{
    if s.len() > 0 {
        let u = s.drop_last();
        lemma_dedup(u);
        let d = dedup(u);
        let x = s.last();
        assert(x == s[s.len() - 1]);
        let r = dedup(s);
        if !seen_in(d, x) {
            assert forall|i: int, j: int| 0 <= i < j < r.len() implies !same_message(#[trigger] r[i], #[trigger] r[j]) by {
                if j == r.len() - 1 {
                    assert(r[i] == d[i]);
                } else {
                    assert(r[i] == d[i] && r[j] == d[j]);
                }
            }
        }
        assert forall|i: int| 0 <= i < s.len() implies seen_in(r, #[trigger] s[i]) by {
            if i < s.len() - 1 {
                assert(s[i] == u[i]);
                assert(seen_in(d, u[i]));
                let k = choose|k: int| 0 <= k < d.len() && same_message(#[trigger] d[k], u[i]);
                assert(r[k] == d[k]);
            } else if seen_in(d, x) {
            } else {
                assert(same_message(r[r.len() - 1], x));
            }
        }
        assert forall|i: int| 0 <= i < r.len() implies seen_in(s, #[trigger] r[i]) by {
            if i < d.len() {
                assert(r[i] == d[i]);
                let k = choose|k: int| 0 <= k < u.len() && same_message(#[trigger] u[k], d[i]);
                assert(s[k] == u[k]);
            } else {
                assert(same_message(s[s.len() - 1], r[i]));
            }
        }
        if no_repeats(s) {
            assert forall|i: int, j: int| 0 <= i < j < u.len() implies !same_message(#[trigger] u[i], #[trigger] u[j]) by {
                assert(u[i] == s[i] && u[j] == s[j]);
            }
            if seen_in(d, x) {
                let k = choose|k: int| 0 <= k < d.len() && same_message(#[trigger] d[k], x);
                assert(d[k] == u[k]);
                assert(!same_message(s[k], s[s.len() - 1]));
            }
            assert(r =~= s);
        }
    }
}

/// Merging keeps at most one result per message; when everything fits in the
/// limit, every result of either list is represented, whether it came from the
/// vector search, the keyword search, or both.
pub proof fn lemma_merge_complete(primary: Seq<MessageResult>, secondary: Seq<MessageResult>, limit: nat)
    ensures
        no_repeats(take(dedup(primary + secondary), limit)),
        dedup(primary + secondary).len() <= limit ==> {
            &&& forall|i: int| 0 <= i < primary.len() ==> seen_in(take(dedup(primary + secondary), limit), #[trigger] primary[i])
            &&& forall|i: int| 0 <= i < secondary.len() ==> seen_in(take(dedup(primary + secondary), limit), #[trigger] secondary[i])
        },
{
    let s = primary + secondary;
    lemma_dedup(s);
    let d = dedup(s);
    let t = take(d, limit);
    assert forall|i: int, j: int| 0 <= i < j < t.len() implies !same_message(#[trigger] t[i], #[trigger] t[j]) by {
        assert(t[i] == d[i] && t[j] == d[j]);
    }
    if d.len() <= limit {
        assert forall|i: int| 0 <= i < primary.len() implies seen_in(t, #[trigger] primary[i]) by {
            assert(s[i] == primary[i]);
        }
        assert forall|i: int| 0 <= i < secondary.len() implies seen_in(t, #[trigger] secondary[i]) by {
            assert(s[primary.len() + i] == secondary[i]);
        }
    }
}

/// With no vector results, the merge hands back the keyword results as they
/// are (cut to the limit), provided they hold no message twice.
pub proof fn lemma_merge_keyword_only(keyword: Seq<MessageResult>, limit: nat)
    requires
        no_repeats(keyword),
    ensures
        take(dedup(Seq::<MessageResult>::empty() + keyword), limit) == take(keyword, limit),
{
    assert(Seq::<MessageResult>::empty() + keyword =~= keyword);
    lemma_dedup(keyword);
}

} // verus!
