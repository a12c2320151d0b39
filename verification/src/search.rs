//! Case-insensitive search over the rendered lines.
use vstd::prelude::*;
use vstd::utf8::encode_utf8;
use vstd::string::StringSliceAdditionalSpecFns;
use crate::style::{Line, SpanView, line_text, lines_view};
use crate::text::{byte_len, decimal, decimal_string, push_str, to_owned_string, utf8_len};
use crate::markdown::table::concat_text;

verus! {

/// A match: a line and the byte range it covers there.
#[derive(Clone, Copy, Debug, PartialEq, Eq, Structural)]
pub struct SearchMatch {
    pub line_index: usize,
    pub byte_start: usize,
    pub byte_end: usize,
}

/// The query, its matches, and which match is current.
pub struct SearchState {
    pub query: String,
    pub matches: Vec<SearchMatch>,
    pub current_match: usize,
    pub active: bool,
}

/// The lower-case form of a text (what `str::to_lowercase` returns).
pub uninterp spec fn lowercase(s: Seq<char>) -> Seq<char>;

/// The lower-case form of `s`.
/// Trusted: calls `str::to_lowercase`, whose result depends on the text alone.
#[verifier::external_body]
fn to_lower(s: &str) -> (r: String)
    ensures
        r@ == lowercase(s@),
{
    s.to_lowercase()
}

/// The bytes `q` occur in `l` at `p`.
pub open spec fn occurs_at(l: Seq<u8>, q: Seq<u8>, p: int) -> bool {
    0 <= p && p + q.len() <= l.len() && l.subrange(p, p + q.len()) == q
}

/// The positions from `start` on where `q` occurs in `l`, ascending.
pub open spec fn positions_from(l: Seq<u8>, q: Seq<u8>, start: int) -> Seq<int>
    decreases l.len() + 1 - start,
{
    if start < 0 || start > l.len() {
        Seq::empty()
    } else if occurs_at(l, q, start) {
        seq![start] + positions_from(l, q, start + 1)
    } else {
        positions_from(l, q, start + 1)
    }
}

/// The bytes of the lower-case text of a line.
pub open spec fn lower_bytes(line: Seq<SpanView>) -> Seq<u8> {
    encode_utf8(lowercase(line_text(line)))
}

/// The matches of the query in one line: every position where the
/// lower-case query occurs in the lower-case line, running for the byte
/// length of the query as typed.
pub open spec fn line_matches(line: Seq<SpanView>, li: int, query: Seq<char>) -> Seq<SearchMatch> {
    let ps = positions_from(lower_bytes(line), encode_utf8(lowercase(query)), 0);
    ps.map_values(|p: int| SearchMatch {
        line_index: li as usize,
        byte_start: p as usize,
        byte_end: (p + byte_len(query)) as usize,
    })
}

/// The matches in the first `k` lines, in line order.
pub open spec fn matches_upto(lines: Seq<Seq<SpanView>>, query: Seq<char>, k: nat) -> Seq<SearchMatch>
    decreases k,
{
    if k == 0 {
        Seq::empty()
    } else {
        matches_upto(lines, query, (k - 1) as nat) + line_matches(lines[k - 1], k - 1, query)
    }
}

/// All matches of a non-empty query.
pub open spec fn all_matches(lines: Seq<Seq<SpanView>>, query: Seq<char>) -> Seq<SearchMatch> {
    if query.len() == 0 { Seq::empty() } else { matches_upto(lines, query, lines.len()) }
}

/// Searching line `li` cannot go on: the lower-case query is empty (so it
/// would match inside characters), or a match's end overflows. Matches of a
/// query that starts with a non-ASCII character are all found: the search
/// steps past each match to the next position.
pub open spec fn line_fails(line: Seq<SpanView>, query: Seq<char>) -> bool {
    let q = encode_utf8(lowercase(query));
    let ps = positions_from(lower_bytes(line), q, 0);
    ps.len() > 0 && (q.len() == 0
        || exists|i: int| 0 <= i < ps.len() && #[trigger] ps[i] + byte_len(query) > usize::MAX)
}

/// Searching for `query` cannot go on in some line.
pub open spec fn search_fails(lines: Seq<Seq<SpanView>>, query: Seq<char>) -> bool {
    query.len() > 0 && exists|i: int| 0 <= i < lines.len() && line_fails(#[trigger] lines[i], query)
}

/// Whether `q` occurs in `l` at `p`.
fn occurs_at_exec(l: &[u8], q: &[u8], p: usize) -> (b: bool)
    requires
        p <= l@.len(),
    ensures
        b == occurs_at(l@, q@, p as int),
{
    if q.len() > l.len() - p {
        return false;
    }
    let mut i: usize = 0;
    while i < q.len()
        invariant
            p + q@.len() <= l@.len() <= usize::MAX,
            i <= q@.len(),
            forall|k: int| 0 <= k < i ==> l@[p + k] == q@[k],
        decreases q@.len() - i,
    {
        assert(p + i < l@.len());
        if l[p + i] != q[i] {
            assert(l@.subrange(p as int, p + q@.len())[i as int] != q@[i as int]);
            return false;
        }
        i = i + 1;
    }
    assert(l@.subrange(p as int, p + q@.len()) =~= q@);
    true
}

proof fn lemma_positions_skip(l: Seq<u8>, q: Seq<u8>, start: int)
    requires
        0 <= start <= l.len(),
        !occurs_at(l, q, start),
    ensures
        positions_from(l, q, start) == positions_from(l, q, start + 1),
{
}

/// The matches of the query in one line; `None` where searching cannot go on.
fn search_line(line: &Line, li: usize, q: &[u8], query_len: usize, ghost_query: Ghost<Seq<char>>)
    -> (r: Option<Vec<SearchMatch>>)
    requires
        q@ == encode_utf8(lowercase(ghost_query@)),
        query_len as nat == byte_len(ghost_query@),
    ensures
        r is None <==> line_fails(line@, ghost_query@),
        r matches Some(v) ==> v@ == line_matches(line@, li as int, ghost_query@),
{
    let text = concat_text(&line.spans);
    let lower = to_lower(text.as_str());
    let l = lower.as_str().as_bytes();
    let ghost lb = lower_bytes(line@);
    assert(l@ == lb);
    let ghost ps = positions_from(lb, q@, 0);
    let mut out: Vec<SearchMatch> = Vec::new();
    let mut start: usize = 0;
    let n = l.len();
    loop
        invariant
            n == l@.len(),
            l@ == lb,
            lb == lower_bytes(line@),
            q@ == encode_utf8(lowercase(ghost_query@)),
            query_len as nat == byte_len(ghost_query@),
            ps == positions_from(lb, q@, 0),
            start <= n,
            ps == positions_from(lb, q@, 0).take(out@.len() as int) + positions_from(lb, q@, start as int),
            out@.len() <= ps.len(),
            forall|k: int| 0 <= k < out@.len() ==> #[trigger] out@[k] == (SearchMatch {
                line_index: li,
                byte_start: ps[k] as usize,
                byte_end: (ps[k] + byte_len(ghost_query@)) as usize,
            }),
            forall|k: int| 0 <= k < out@.len() ==> ps[k] + byte_len(ghost_query@) <= usize::MAX,
            out@.len() > 0 ==> q@.len() > 0,
        ensures
            ps == positions_from(lb, q@, 0).take(out@.len() as int) + positions_from(lb, q@, n + 1),
            out@.len() <= ps.len(),
            forall|k: int| 0 <= k < out@.len() ==> #[trigger] out@[k] == (SearchMatch {
                line_index: li,
                byte_start: ps[k] as usize,
                byte_end: (ps[k] + byte_len(ghost_query@)) as usize,
            }),
            lb == lower_bytes(line@),
            ps == positions_from(lb, q@, 0),
        decreases n - start,
    {
        let ghost k0 = out@.len();
        if occurs_at_exec(l, q, start) {
            assert(positions_from(lb, q@, start as int) =~= seq![start as int] + positions_from(lb, q@, start + 1));
            assert(ps[out@.len() as int] == start);
            assert(ps.len() > out@.len());
            if q.len() == 0 {
                return None;
            }
            if start > usize::MAX - query_len {
                assert(ps[out@.len() as int] + byte_len(ghost_query@) > usize::MAX);
                return None;
            }
            assert(positions_from(lb, q@, 0).take(out@.len() + 1int)
                =~= positions_from(lb, q@, 0).take(out@.len() as int).push(start as int));
            out.push(SearchMatch { line_index: li, byte_start: start, byte_end: start + query_len });
            assert(ps =~= positions_from(lb, q@, 0).take(out@.len() as int) + positions_from(lb, q@, start + 1));
        }
        else {
            proof { lemma_positions_skip(lb, q@, start as int); }
        }
        assert(ps == positions_from(lb, q@, 0).take(out@.len() as int) + positions_from(lb, q@, start + 1));
        if start == n {
            break;
        }
        start = start + 1;
    }
    proof {
        assert(positions_from(lb, q@, n + 1) =~= Seq::<int>::empty());
        assert((ps.take(out@.len() as int) + Seq::<int>::empty()) =~= ps.take(out@.len() as int));
        assert(ps.take(out@.len() as int) =~= ps);
        assert(out@ =~= line_matches(line@, li as int, ghost_query@));
    }
    Some(out)
}


/// The match that follows the current one, cyclically.
pub open spec fn next_index(cur: usize, len: nat) -> usize {
    if len > 0 { ((cur + 1) % (len as int)) as usize } else { cur }
}

/// The match that precedes the current one, cyclically.
pub open spec fn prev_index(cur: usize, len: nat) -> usize {
    if len > 0 {
        if cur == 0 { (len - 1) as usize } else { (cur - 1) as usize }
    } else {
        cur
    }
}

/// The text `Match <current, from 1>/<count>`.
pub open spec fn match_text(cur: usize, len: nat) -> Seq<char> {
    seq!['M', 'a', 't', 'c', 'h', ' '] + decimal((cur + 1) as nat) + seq!['/'] + decimal(len)
}

impl SearchState {
    /// No query, no match.
    pub fn new() -> (s: SearchState)
        ensures
            s.query@ == Seq::<char>::empty(),
            s.matches@ == Seq::<SearchMatch>::empty(),
            s.current_match == 0,
            !s.active,
    {
        SearchState { query: String::new(), matches: Vec::new(), current_match: 0, active: false }
    }

    /// Searches the lines for the query when that can be done, and says
    /// whether it could; otherwise leaves the state as it was.
    pub fn search_checked(&mut self, lines: &[Line]) -> (ok: bool)
        ensures
            ok == !search_fails(lines_view(lines@), old(self).query@),
            ok ==> final(self).matches@ == all_matches(lines_view(lines@), old(self).query@),
            ok ==> final(self).current_match == 0,
            !ok ==> final(self).matches@ == old(self).matches@ && final(self).current_match == old(self).current_match,
            final(self).query@ == old(self).query@,
            final(self).active == old(self).active,
    {
        let ghost lv = lines_view(lines@);
        if self.query.as_str().is_empty() {
            self.matches = Vec::new();
            self.current_match = 0;
            assert(self.matches@ =~= all_matches(lv, self.query@));
            return true;
        }
        let ql = to_lower(self.query.as_str());
        let q = ql.as_str().as_bytes();
        let qlen = utf8_len(self.query.as_str());
        let mut found: Vec<SearchMatch> = Vec::new();
        let mut li: usize = 0;
        while li < lines.len()
            invariant
                lv == lines_view(lines@),
                q@ == encode_utf8(lowercase(self.query@)),
                qlen as nat == byte_len(self.query@),
                li <= lines@.len(),
                *self == *old(self),
                self.query@.len() > 0,
                found@ == matches_upto(lv, self.query@, li as nat),
                forall|k: int| 0 <= k < li ==> !line_fails(#[trigger] lv[k], self.query@),
            decreases lines@.len() - li,
        {
            assert(lv[li as int] == lines@[li as int]@);
            match search_line(&lines[li], li, q, qlen, Ghost(self.query@)) {
                Some(v) => {
                    let mut v = v;
                    found.append(&mut v);
                },
                None => {
                    assert(search_fails(lv, self.query@));
                    return false;
                },
            }
            li = li + 1;
        }
        assert(!search_fails(lv, self.query@));
        self.matches = found;
        self.current_match = 0;
        true
    }

    /// Searches the lines for the query: all its case-insensitive matches,
    /// line by line, the first one current. No match for an empty query.
    pub fn search(&mut self, lines: &[Line])
        requires
            !search_fails(lines_view(lines@), old(self).query@),
        ensures
            final(self).matches@ == all_matches(lines_view(lines@), old(self).query@),
            final(self).current_match == 0,
            final(self).query@ == old(self).query@,
            final(self).active == old(self).active,
    {
        let _ = self.search_checked(lines);
    }

    /// Makes the next match current, cyclically.
    pub fn next_match(&mut self)
        requires
            old(self).matches@.len() > 0 ==> old(self).current_match < usize::MAX,
        ensures
            final(self).current_match == next_index(old(self).current_match, old(self).matches@.len()),
            final(self).matches@ == old(self).matches@,
            final(self).query@ == old(self).query@,
            final(self).active == old(self).active,
    {
        if self.matches.len() > 0 {
            self.current_match = (self.current_match + 1) % self.matches.len();
        }
    }

    /// Makes the previous match current, cyclically.
    pub fn prev_match(&mut self)
        ensures
            final(self).current_match == prev_index(old(self).current_match, old(self).matches@.len()),
            final(self).matches@ == old(self).matches@,
            final(self).query@ == old(self).query@,
            final(self).active == old(self).active,
    {
        if self.matches.len() > 0 {
            self.current_match = if self.current_match == 0 {
                self.matches.len() - 1
            } else {
                self.current_match - 1
            };
        }
    }

    /// The line of the current match, if there is one.
    pub fn current_line(&self) -> (r: Option<usize>)
        ensures
            r == (if self.current_match < self.matches@.len() {
                Some(self.matches@[self.current_match as int].line_index)
            } else {
                None
            }),
    {
        if self.current_match < self.matches.len() {
            Some(self.matches[self.current_match].line_index)
        } else {
            None
        }
    }

    /// `Match <current>/<count>`, when there are matches.
    pub fn match_info(&self) -> (r: Option<String>)
        requires
            self.matches@.len() > 0 ==> self.current_match < usize::MAX,
        ensures
            match r {
                Some(s) => self.matches@.len() > 0 && s@ == match_text(self.current_match, self.matches@.len()),
                None => self.matches@.len() == 0,
            },
    {
        if self.matches.len() == 0 {
            None
        } else {
            proof {
                reveal_strlit("Match "); assert("Match "@ =~= seq!['M', 'a', 't', 'c', 'h', ' ']);
                reveal_strlit("/"); assert("/"@ =~= seq!['/']);
            }
            let mut s = to_owned_string("Match ");
            push_str(&mut s, decimal_string((self.current_match + 1) as u64).as_str());
            push_str(&mut s, "/");
            push_str(&mut s, decimal_string(self.matches.len() as u64).as_str());
            Some(s)
        }
    }

    /// Forgets the query and its matches, and leaves search.
    pub fn clear(&mut self)
        ensures
            final(self).query@ == Seq::<char>::empty(),
            final(self).matches@ == Seq::<SearchMatch>::empty(),
            final(self).current_match == 0,
            !final(self).active,
    {
        self.query = String::new();
        self.matches = Vec::new();
        self.current_match = 0;
        self.active = false;
    }
}

/// Going to the next match and back returns to the same match.
pub proof fn lemma_next_then_prev(cur: usize, len: nat)
    requires
        cur < len,
        len <= usize::MAX,
    ensures
        prev_index(next_index(cur, len), len) == cur,
{
    if cur + 1 < len {
        vstd::arithmetic::div_mod::lemma_small_mod((cur + 1) as nat, len);
    } else {
        vstd::arithmetic::div_mod::lemma_mod_self_0(len as int);
    }
}

/// Going to the previous match and forward returns to the same match.
pub proof fn lemma_prev_then_next(cur: usize, len: nat)
    requires
        cur < len,
        len <= usize::MAX,
    ensures
        next_index(prev_index(cur, len), len) == cur,
{
    if cur == 0 {
        vstd::arithmetic::div_mod::lemma_mod_self_0(len as int);
    } else {
        vstd::arithmetic::div_mod::lemma_small_mod(cur as nat, len);
    }
}

/// Stepping through the matches keeps the current match among them.
pub proof fn lemma_next_in_range(cur: usize, len: nat)
    requires
        len > 0,
        len <= usize::MAX,
    ensures
        next_index(cur, len) < len,
        prev_index(cur, len) < len || cur >= len,
{
}

/// The positions found from `start` on are occurrences, ascending, between
/// `start` and the end of the line.
proof fn lemma_positions_from(l: Seq<u8>, q: Seq<u8>, start: int)
    ensures
        forall|i: int| 0 <= i < positions_from(l, q, start).len() ==> ({
            let p = #[trigger] positions_from(l, q, start)[i];
            &&& occurs_at(l, q, p)
            &&& start <= p <= l.len()
        }),
        forall|i: int, j: int| 0 <= i < j < positions_from(l, q, start).len()
            ==> #[trigger] positions_from(l, q, start)[i] < #[trigger] positions_from(l, q, start)[j],
    decreases l.len() + 1 - start,
{
    if start < 0 || start > l.len() {
    } else {
        lemma_positions_from(l, q, start + 1);
        let rest = positions_from(l, q, start + 1);
        let ps = positions_from(l, q, start);
        if occurs_at(l, q, start) {
            assert(ps == seq![start] + rest);
            assert forall|i: int| 0 <= i < ps.len() implies ({
                let p = #[trigger] ps[i];
                &&& occurs_at(l, q, p)
                &&& start <= p <= l.len()
            }) by {
                if i > 0 {
                    assert(ps[i] == rest[i - 1]);
                }
            }
            assert forall|i: int, j: int| 0 <= i < j < ps.len() implies #[trigger] ps[i] < #[trigger] ps[j] by {
                assert(ps[j] == rest[j - 1]);
                if i > 0 {
                    assert(ps[i] == rest[i - 1]);
                }
            }
        } else {
            assert(ps == rest);
        }
    }
}

/// The matches in the first `k` lines are occurrences of the lower-case query
/// in the lower-case lines, each running for the query's byte length.
proof fn lemma_matches_upto(lines: Seq<Seq<SpanView>>, q: Seq<char>, k: nat)
    requires
        k <= lines.len() <= usize::MAX,
        forall|i: int| 0 <= i < lines.len() ==> !line_fails(#[trigger] lines[i], q),
    ensures
        forall|i: int| 0 <= i < matches_upto(lines, q, k).len() ==> ({
            let m = #[trigger] matches_upto(lines, q, k)[i];
            &&& m.line_index < k
            &&& occurs_at(lower_bytes(lines[m.line_index as int]), encode_utf8(lowercase(q)), m.byte_start as int)
            &&& m.byte_end == m.byte_start + byte_len(q)
        }),
    decreases k,
{
    if k > 0 {
        lemma_matches_upto(lines, q, (k - 1) as nat);
        let li = k - 1;
        let line = lines[li];
        let ps = positions_from(lower_bytes(line), encode_utf8(lowercase(q)), 0);
        lemma_positions_from(lower_bytes(line), encode_utf8(lowercase(q)), 0);
        assert(!line_fails(lines[li], q));
        let prev = matches_upto(lines, q, (k - 1) as nat);
        let cur = line_matches(line, li, q);
        assert forall|i: int| 0 <= i < cur.len() implies ({
            let m = #[trigger] cur[i];
            &&& m.line_index < k
            &&& occurs_at(lower_bytes(lines[m.line_index as int]), encode_utf8(lowercase(q)), m.byte_start as int)
            &&& m.byte_end == m.byte_start + byte_len(q)
        }) by {
            assert(ps[i] + byte_len(q) <= usize::MAX);
            assert(occurs_at(lower_bytes(line), encode_utf8(lowercase(q)), ps[i]));
        }
        assert forall|i: int| 0 <= i < matches_upto(lines, q, k).len() implies ({
            let m = #[trigger] matches_upto(lines, q, k)[i];
            &&& m.line_index < k
            &&& occurs_at(lower_bytes(lines[m.line_index as int]), encode_utf8(lowercase(q)), m.byte_start as int)
            &&& m.byte_end == m.byte_start + byte_len(q)
        }) by {
            if i < prev.len() {
                assert(matches_upto(lines, q, k)[i] == prev[i]);
            } else {
                assert(matches_upto(lines, q, k)[i] == cur[i - prev.len()]);
            }
        }
    }
}

/// Every match of a search that can be done is an occurrence of the
/// lower-case query in the lower-case text of its line, and covers as many
/// bytes as the query has.
pub proof fn lemma_matches_are_occurrences(lines: Seq<Seq<SpanView>>, q: Seq<char>)
    requires
        !search_fails(lines, q),
        lines.len() <= usize::MAX,
    ensures
        forall|i: int| 0 <= i < all_matches(lines, q).len() ==> ({
            let m = #[trigger] all_matches(lines, q)[i];
            &&& m.line_index < lines.len()
            &&& occurs_at(lower_bytes(lines[m.line_index as int]), encode_utf8(lowercase(q)), m.byte_start as int)
            &&& m.byte_end == m.byte_start + byte_len(q)
        }),
{
    if q.len() > 0 {
        lemma_matches_upto(lines, q, lines.len());
    }
}


/// Match `a` comes before match `b` in reading order.
pub open spec fn before(a: SearchMatch, b: SearchMatch) -> bool {
    a.line_index < b.line_index || (a.line_index == b.line_index && a.byte_start < b.byte_start)
}

proof fn lemma_matches_upto_ordered(lines: Seq<Seq<SpanView>>, q: Seq<char>, k: nat)
    requires
        k <= lines.len() <= usize::MAX,
        forall|i: int| 0 <= i < lines.len() ==> !line_fails(#[trigger] lines[i], q),
    ensures
        forall|i: int| 0 <= i < matches_upto(lines, q, k).len() ==> (#[trigger] matches_upto(lines, q, k)[i]).line_index < k,
        forall|i: int, j: int| 0 <= i < j < matches_upto(lines, q, k).len()
            ==> before(#[trigger] matches_upto(lines, q, k)[i], #[trigger] matches_upto(lines, q, k)[j]),
    decreases k,
{
    if k > 0 {
        lemma_matches_upto_ordered(lines, q, (k - 1) as nat);
        let li = k - 1;
        let line = lines[li];
        let ps = positions_from(lower_bytes(line), encode_utf8(lowercase(q)), 0);
        lemma_positions_from(lower_bytes(line), encode_utf8(lowercase(q)), 0);
        assert(!line_fails(lines[li], q));
        let prev = matches_upto(lines, q, (k - 1) as nat);
        let cur = line_matches(line, li, q);
        let all = matches_upto(lines, q, k);
        assert(all == prev + cur);
        assert forall|i: int| 0 <= i < cur.len() implies (#[trigger] cur[i]).line_index == li
            && cur[i].byte_start == ps[i] by {
            assert(ps[i] + byte_len(q) <= usize::MAX);
        }
        assert forall|i: int| 0 <= i < all.len() implies (#[trigger] all[i]).line_index < k by {
            if i >= prev.len() {
                assert(all[i] == cur[i - prev.len()]);
            }
        }
        assert forall|i: int, j: int| 0 <= i < j < all.len() implies before(#[trigger] all[i], #[trigger] all[j]) by {
            if j < prev.len() {
                assert(all[i] == prev[i] && all[j] == prev[j]);
            } else if i < prev.len() {
                assert(all[i] == prev[i] && all[j] == cur[j - prev.len()]);
            } else {
                assert(all[i] == cur[i - prev.len()] && all[j] == cur[j - prev.len()]);
                assert(ps[i - prev.len()] < ps[j - prev.len()]);
            }
        }
    }
}

/// The matches of a search that can be done come in reading order: by line,
/// and by position within a line.
pub proof fn lemma_matches_in_reading_order(lines: Seq<Seq<SpanView>>, q: Seq<char>)
    requires
        !search_fails(lines, q),
        lines.len() <= usize::MAX,
    ensures
        forall|i: int, j: int| 0 <= i < j < all_matches(lines, q).len()
            ==> before(#[trigger] all_matches(lines, q)[i], #[trigger] all_matches(lines, q)[j]),
{
    if q.len() > 0 {
        lemma_matches_upto_ordered(lines, q, lines.len());
    }
}

} // verus!
