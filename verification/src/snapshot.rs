//! Daily rank snapshots: rendering a run's ranks to a line-oriented
//! record, reading a record back, keeping dated snapshots in a store,
//! and diffing today's ranks against the most recent prior snapshot.

use vstd::prelude::*;
use crate::rank::{lemma_rank_name_round_trip, rank_from_name_spec, rank_name_spec, Rank};
use crate::results::PlayerRecord;
use crate::text::{
    find_char, i64_to_string, int_str, is_space, lemma_find_char, lemma_split_char_line,
    lemma_split_char_no_sep, lemma_strip_commas_id, normalize_id, spec_lines, split_char,
    split_first, split_lines, strip_commas, strip_cr, trim_left_q, trim_left_ws, trim_right_q,
    trim_right_ws, trim_spaces, trimmed_username,
};

verus! {

/// One run's ranks: ordered (identifier, tier) pairs.  A later pair
/// with the same identifier shadows an earlier one on lookup.
#[derive(Debug)]
pub struct RankSnapshot {
    pub entries: Vec<(String, Rank)>,
}

/// The abstract value of a snapshot: its pairs in order.
pub open spec fn snap_view(s: RankSnapshot) -> Seq<(Seq<char>, Rank)> {
    s.entries@.map(|i: int, p: (String, Rank)| (p.0@, p.1))
}

/// The identifier-to-tier mapping a pair sequence denotes; later pairs
/// win.
pub open spec fn as_map(s: Seq<(Seq<char>, Rank)>) -> Map<Seq<char>, Rank>
    decreases s.len(),
{
    if s.len() == 0 {
        Map::empty()
    } else {
        as_map(s.drop_last()).insert(s.last().0, s.last().1)
    }
}

/// The tier the latest pair with the given identifier holds.
pub open spec fn lookup(s: Seq<(Seq<char>, Rank)>, name: Seq<char>) -> Option<Rank>
    decreases s.len(),
{
    if s.len() == 0 {
        None
    } else if s.last().0 == name {
        Some(s.last().1)
    } else {
        lookup(s.drop_last(), name)
    }
}

/// `lookup` reads exactly the denoted mapping.
pub proof fn lemma_lookup_as_map(s: Seq<(Seq<char>, Rank)>, name: Seq<char>)
    ensures
        as_map(s).contains_key(name) <==> lookup(s, name) is Some,
        lookup(s, name) matches Some(r) ==> as_map(s)[name] == r,
    decreases s.len(),
{
    if s.len() > 0 && s.last().0 != name {
        lemma_lookup_as_map(s.drop_last(), name);
    }
}

impl RankSnapshot {
    /// A snapshot with no entries.
    pub fn new() -> (r: Self)
        ensures
            snap_view(r) =~= Seq::<(Seq<char>, Rank)>::empty(),
    {
        RankSnapshot { entries: Vec::new() }
    }

    /// Records one identifier's tier after all earlier entries.
    pub fn push(&mut self, username: String, rank: Rank)
        ensures
            snap_view(*final(self)) =~= snap_view(*old(self)).push((username@, rank)),
    {
        self.entries.push((username, rank));
    }

    /// The tier stored for an identifier, with the latest entry winning.
    pub fn get(&self, name: &str) -> (r: Option<Rank>)
        ensures
            r == lookup(snap_view(*self), name@),
    {
        let ghost sv = snap_view(*self);
        let mut i: usize = self.entries.len();
        proof {
            assert(sv.take(i as int) =~= sv);
        }
        while i > 0
            invariant
                i <= self.entries@.len(),
                sv == snap_view(*self),
                sv.len() == self.entries@.len(),
                lookup(sv, name@) == lookup(sv.take(i as int), name@),
            decreases i,
        {
            let p = &self.entries[i - 1];
            proof {
                assert(sv[i - 1] == (p.0@, p.1));
                assert(sv.take(i as int).last() == sv[i - 1]);
                assert(sv.take(i as int).drop_last() =~= sv.take(i as int - 1));
            }
            if crate::text::str_eq(p.0.as_str(), name) {
                return Some(p.1);
            }
            i = i - 1;
        }
        proof {
            assert(sv.take(0) =~= Seq::<(Seq<char>, Rank)>::empty());
        }
        None
    }
}

/// The body of one rendered snapshot line: the identifier in quotes, a
/// comma and a space, and the tier's name.
pub open spec fn line_body(e: (Seq<char>, Rank)) -> Seq<char> {
    "\""@ + e.0 + "\", "@ + rank_name_spec(e.1)
}

/// The rendered snapshot: one line per pair, each ending in a newline.
pub open spec fn render_snapshot_spec(s: Seq<(Seq<char>, Rank)>) -> Seq<char>
    decreases s.len(),
{
    if s.len() == 0 {
        Seq::empty()
    } else {
        line_body(s[0]) + "\n"@ + render_snapshot_spec(s.skip(1))
    }
}

proof fn lemma_render_push(s: Seq<(Seq<char>, Rank)>, e: (Seq<char>, Rank))
    ensures
        render_snapshot_spec(s.push(e)) == render_snapshot_spec(s) + line_body(e) + "\n"@,
    decreases s.len(),
{
    if s.len() == 0 {
        assert(s.push(e)[0] == e);
        assert(s.push(e).skip(1) =~= Seq::<(Seq<char>, Rank)>::empty());
        assert(render_snapshot_spec(Seq::<(Seq<char>, Rank)>::empty()) == Seq::<char>::empty());
        assert(s =~= Seq::<(Seq<char>, Rank)>::empty());
        assert(render_snapshot_spec(s.push(e)) =~= render_snapshot_spec(s) + line_body(e) + "\n"@);
    } else {
        assert(s.push(e)[0] == s[0]);
        assert(s.push(e).skip(1) =~= s.skip(1).push(e));
        lemma_render_push(s.skip(1), e);
        assert(render_snapshot_spec(s.push(e)) == line_body(s[0]) + "\n"@ + render_snapshot_spec(
            s.skip(1).push(e),
        ));
        assert(render_snapshot_spec(s) == line_body(s[0]) + "\n"@ + render_snapshot_spec(s.skip(1)));
        assert(render_snapshot_spec(s.push(e)) =~= render_snapshot_spec(s) + line_body(e) + "\n"@);
    }
}

/// Renders a snapshot as one line per entry: the quoted identifier, a
/// comma, and the tier name.
pub fn render_snapshot(snapshot: &RankSnapshot) -> (out: String)
    ensures
        out@ == render_snapshot_spec(snap_view(*snapshot)),
{
    let ghost sv = snap_view(*snapshot);
    let mut out = String::new();
    let n = snapshot.entries.len();
    let mut i: usize = 0;
    proof {
        assert(sv.take(0) =~= Seq::<(Seq<char>, Rank)>::empty());
    }
    while i < n
        invariant
            i <= n,
            n == snapshot.entries@.len(),
            sv == snap_view(*snapshot),
            sv.len() == n,
            out@ == render_snapshot_spec(sv.take(i as int)),
        decreases n - i,
    {
        let p = &snapshot.entries[i];
        proof {
            assert(sv[i as int] == (p.0@, p.1));
        }
        out.append("\"");
        out.append(p.0.as_str());
        out.append("\", ");
        let name = p.1.name();
        out.append(name.as_str());
        out.append("\n");
        proof {
            assert(sv.take(i as int + 1) =~= sv.take(i as int).push(sv[i as int]));
            lemma_render_push(sv.take(i as int), sv[i as int]);
            assert(out@ =~= render_snapshot_spec(sv.take(i as int + 1)));
        }
        i = i + 1;
    }
    proof {
        assert(sv.take(n as int) =~= sv);
    }
    out
}

/// The pairs one stored line yields: nothing without a comma, else the
/// normalized left part and the tier named by the trimmed right part.
pub open spec fn parse_line_spec(line: Seq<char>) -> Seq<(Seq<char>, Rank)> {
    let f = find_char(line, ',');
    if f < 0 {
        seq![]
    } else {
        seq![
            (
                normalize_id(line.take(f)),
                rank_from_name_spec(trim_right_ws(trim_left_ws(line.skip(f + 1)))),
            ),
        ]
    }
}

/// The pairs a stored snapshot text yields, line by line.
pub open spec fn parse_lines_spec(lines: Seq<Seq<char>>) -> Seq<(Seq<char>, Rank)>
    decreases lines.len(),
{
    if lines.len() == 0 {
        seq![]
    } else {
        parse_lines_spec(lines.drop_last()) + parse_line_spec(lines.last())
    }
}

/// The snapshot a stored text denotes.
pub open spec fn parse_snapshot_spec(content: Seq<char>) -> Seq<(Seq<char>, Rank)> {
    parse_lines_spec(spec_lines(content))
}

/// Reads a stored snapshot back: each line is split at its first comma
/// into an identifier, normalized as every identifier is, and a tier
/// name; lines without a comma are ignored.
pub fn create_previous_results_map(content: String) -> (r: RankSnapshot)
    ensures
        snap_view(r) == parse_snapshot_spec(content@),
{
    let lines = split_lines(content.as_str());
    let ghost linesv = spec_lines(content@);
    let mut r = RankSnapshot::new();
    let n = lines.len();
    let mut i: usize = 0;
    proof {
        assert(linesv.take(0) =~= Seq::<Seq<char>>::empty());
        assert(snap_view(r) =~= parse_lines_spec(linesv.take(0)));
    }
    while i < n
        invariant
            i <= n,
            n == lines@.len(),
            lines.deep_view() == linesv,
            snap_view(r) == parse_lines_spec(linesv.take(i as int)),
        decreases n - i,
    {
        let line = &lines[i];
        proof {
            assert(line@ == linesv[i as int]);
            assert(linesv.take(i as int + 1).drop_last() =~= linesv.take(i as int));
            assert(linesv.take(i as int + 1).last() == linesv[i as int]);
        }
        match split_first(line.as_str(), ',') {
            Some((left, right)) => {
                let username = trimmed_username(left.as_str());
                let trimmed = trim_spaces(right.as_str());
                let rank = Rank::from_name(trimmed.as_str());
                let ghost before = snap_view(r);
                r.push(username, rank);
                proof {
                    assert(snap_view(r) =~= before + parse_line_spec(linesv[i as int]));
                    assert(snap_view(r) =~= parse_lines_spec(linesv.take(i as int + 1)));
                }
            },
            None => {
                proof {
                    assert(parse_line_spec(linesv[i as int]) =~= Seq::<(Seq<char>, Rank)>::empty());
                    assert(snap_view(r) =~= parse_lines_spec(linesv.take(i as int + 1)));
                }
            },
        }
        i = i + 1;
    }
    proof {
        assert(linesv.take(n as int) =~= linesv);
    }
    r
}

/// One detected change of a player's tier between two runs.
#[derive(Debug, Clone)]
pub struct RankTransition {
    pub username: String,
    pub previous: Rank,
    pub current: Rank,
}

pub open spec fn transition_view(t: RankTransition) -> (Seq<char>, Rank, Rank) {
    (t.username@, t.previous, t.current)
}

/// The transitions a result list shows against a prior snapshot, in
/// result order: only players found in the prior snapshot under their
/// normalized name, and only when the tier changed.
pub open spec fn transitions_spec(
    rs: Seq<PlayerRecord>,
    prev: Seq<(Seq<char>, Rank)>,
) -> Seq<(Seq<char>, Rank, Rank)>
    decreases rs.len(),
{
    if rs.len() == 0 {
        seq![]
    } else {
        let r = rs.last();
        let t = transitions_spec(rs.drop_last(), prev);
        match lookup(prev, normalize_id(r.username@)) {
            Some(p) => {
                if p != r.rank {
                    t + seq![(r.username@, p, r.rank)]
                } else {
                    t
                }
            },
            None => t,
        }
    }
}

/// Compares the current results with a prior snapshot and reports every
/// rank change; players absent from the prior snapshot are ignored.
pub fn compare_results(results: &Vec<PlayerRecord>, previous: &RankSnapshot) -> (out: Vec<
    RankTransition,
>)
    ensures
        out@.map(|i: int, t: RankTransition| transition_view(t)) == transitions_spec(
            results@,
            snap_view(*previous),
        ),
{
    let ghost pv = snap_view(*previous);
    let mut out: Vec<RankTransition> = Vec::new();
    let n = results.len();
    let mut i: usize = 0;
    proof {
        assert(results@.take(0) =~= Seq::<PlayerRecord>::empty());
        assert(out@.map(|k: int, t: RankTransition| transition_view(t)) =~= transitions_spec(
            results@.take(0),
            pv,
        ));
    }
    while i < n
        invariant
            i <= n,
            n == results@.len(),
            pv == snap_view(*previous),
            out@.map(|k: int, t: RankTransition| transition_view(t)) == transitions_spec(
                results@.take(i as int),
                pv,
            ),
        decreases n - i,
    {
        let r = &results[i];
        proof {
            assert(results@.take(i as int + 1).drop_last() =~= results@.take(i as int));
            assert(results@.take(i as int + 1).last() == results@[i as int]);
        }
        let key = trimmed_username(r.username.as_str());
        let ghost old_out = out@.map(|k: int, t: RankTransition| transition_view(t));
        match previous.get(key.as_str()) {
            Some(prev_rank) => {
                if prev_rank != r.rank {
                    out.push(
                        RankTransition {
                            username: r.username.clone(),
                            previous: prev_rank,
                            current: r.rank,
                        },
                    );
                    proof {
                        assert(out@.map(|k: int, t: RankTransition| transition_view(t))
                            =~= old_out.push((results@[i as int].username@, prev_rank, results@[i as int].rank)));
                        assert(old_out.push((results@[i as int].username@, prev_rank, results@[i as int].rank))
                            =~= old_out + seq![(results@[i as int].username@, prev_rank, results@[i as int].rank)]);
                    }
                }
            },
            None => {},
        }
        proof {
            assert(out@.map(|k: int, t: RankTransition| transition_view(t)) =~= transitions_spec(
                results@.take(i as int + 1),
                pv,
            ));
        }
        i = i + 1;
    }
    proof {
        assert(results@.take(n as int) =~= results@);
    }
    out
}

/// Dated snapshots, in the order they were stored.
#[derive(Debug)]
pub struct SnapshotStore {
    pub entries: Vec<(i64, RankSnapshot)>,
}

/// The index of the snapshot with the greatest stamp; the earliest one
/// wins a tie.  Negative when the store is empty.
pub open spec fn latest_index(s: Seq<(i64, RankSnapshot)>) -> int
    decreases s.len(),
{
    if s.len() == 0 {
        -1
    } else {
        let p = latest_index(s.drop_last());
        if p == -1 {
            0
        } else if s.last().0 > s[p].0 {
            s.len() - 1
        } else {
            p
        }
    }
}

proof fn lemma_latest_index_in_range(s: Seq<(i64, RankSnapshot)>)
    ensures
        s.len() == 0 ==> latest_index(s) == -1,
        s.len() > 0 ==> 0 <= latest_index(s) < s.len(),
    decreases s.len(),
{
    if s.len() > 0 {
        lemma_latest_index_in_range(s.drop_last());
    }
}

impl SnapshotStore {
    /// A store with no snapshots.
    pub fn new() -> (r: Self)
        ensures
            r.entries@.len() == 0,
    {
        SnapshotStore { entries: Vec::new() }
    }

    /// Appends one dated snapshot; the history is append-only.
    pub fn put(&mut self, stamp: i64, snapshot: RankSnapshot)
        ensures
            final(self).entries@.len() == old(self).entries@.len() + 1,
            final(self).entries@.last().0 == stamp,
            snap_view(final(self).entries@.last().1) == snap_view(snapshot),
            final(self).entries@.take(old(self).entries@.len() as int) == old(self).entries@,
    {
        let ghost before = self.entries@;
        self.entries.push((stamp, snapshot));
        proof {
            assert(self.entries@.take(before.len() as int) =~= before);
        }
    }

    /// The most recently dated snapshot, or nothing when the store is
    /// empty; among equal stamps the one stored first is kept.
    pub fn latest(&self) -> (r: Option<&RankSnapshot>)
        ensures
            self.entries@.len() == 0 ==> r is None,
            self.entries@.len() > 0 ==> {
                &&& r is Some
                &&& 0 <= latest_index(self.entries@) < self.entries@.len()
                &&& *r->Some_0 == self.entries@[latest_index(self.entries@)].1
            },
    {
        let ghost sv = self.entries@;
        let n = self.entries.len();
        if n == 0 {
            return None;
        }
        let mut best: usize = 0;
        let mut i: usize = 1;
        proof {
            lemma_latest_index_in_range(sv);
            assert(sv.take(1).drop_last() =~= sv.take(0));
            assert(sv.take(0) =~= Seq::<(i64, RankSnapshot)>::empty());
            assert(latest_index(Seq::<(i64, RankSnapshot)>::empty()) == -1);
            assert(sv.take(1).len() == 1);
            assert(latest_index(sv.take(1)) == 0);
        }
        while i < n
            invariant
                1 <= i <= n,
                best < i,
                n == sv.len(),
                sv == self.entries@,
                latest_index(sv.take(i as int)) == best as int,
            decreases n - i,
        {
            proof {
                lemma_latest_index_in_range(sv.take(i as int));
                assert(sv.take(i as int + 1).drop_last() =~= sv.take(i as int));
                assert(sv.take(i as int + 1).last() == sv[i as int]);
                assert(forall|k: int| 0 <= k < i ==> sv.take(i as int)[k] == sv[k]);
            }
            if self.entries[i].0 > self.entries[best].0 {
                best = i;
            }
            i = i + 1;
        }
        proof {
            assert(sv.take(n as int) =~= sv);
        }
        Some(&self.entries[best].1)
    }
}

/// Diffs the current results against the most recent prior snapshot;
/// with no prior snapshot there is nothing to report.
pub fn check_for_promotions(results: &Vec<PlayerRecord>, store: &SnapshotStore) -> (out: Vec<
    RankTransition,
>)
    ensures
        store.entries@.len() == 0 ==> out@.len() == 0,
        store.entries@.len() > 0 ==> out@.map(|i: int, t: RankTransition| transition_view(t))
            == transitions_spec(
            results@,
            snap_view(store.entries@[latest_index(store.entries@)].1),
        ),
{
    match store.latest() {
        Some(previous) => compare_results(results, previous),
        None => Vec::new(),
    }
}

/// The snapshot a result list denotes: each record's normalized name
/// and rank, in order.
pub open spec fn results_snapshot_view(rs: Seq<PlayerRecord>) -> Seq<(Seq<char>, Rank)> {
    rs.map(|i: int, r: PlayerRecord| (normalize_id(r.username@), r.rank))
}

/// The file name a dated snapshot is stored under.
pub open spec fn snapshot_file_name_spec(year: int, month: int, day: int) -> Seq<char> {
    int_str(year) + "-"@ + int_str(month) + "-"@ + int_str(day) + "-RANKS.txt"@
}

/// Builds today's snapshot from the results, stores it under the given
/// date, and hands back the file name and rendered content to persist.
///
/// The date bounds cover every date a calendar library can produce and
/// keep the stored stamp within range.
pub fn store_daily_ranks(
    results: &Vec<PlayerRecord>,
    store: &mut SnapshotStore,
    year: i64,
    month: i64,
    day: i64,
) -> (out: (String, String))
    requires
        -300000 <= year <= 300000,
        1 <= month <= 12,
        1 <= day <= 31,
    ensures
        out.0@ == snapshot_file_name_spec(year as int, month as int, day as int),
        out.1@ == render_snapshot_spec(results_snapshot_view(results@)),
        final(store).entries@.len() == old(store).entries@.len() + 1,
        final(store).entries@.last().0 == year * 10000 + month * 100 + day,
        snap_view(final(store).entries@.last().1) == results_snapshot_view(results@),
        final(store).entries@.take(old(store).entries@.len() as int) == old(store).entries@,
{
    let mut snapshot = RankSnapshot::new();
    let n = results.len();
    let mut i: usize = 0;
    proof {
        assert(results@.take(0) =~= Seq::<PlayerRecord>::empty());
        assert(snap_view(snapshot) =~= results_snapshot_view(results@.take(0)));
    }
    while i < n
        invariant
            i <= n,
            n == results@.len(),
            snap_view(snapshot) == results_snapshot_view(results@.take(i as int)),
        decreases n - i,
    {
        let r = &results[i];
        let username = trimmed_username(r.username.as_str());
        snapshot.push(username, r.rank);
        proof {
            assert(results@.take(i as int + 1) =~= results@.take(i as int).push(
                results@[i as int],
            ));
            assert(snap_view(snapshot) =~= results_snapshot_view(results@.take(i as int + 1)));
        }
        i = i + 1;
    }
    proof {
        assert(results@.take(n as int) =~= results@);
    }
    let content = render_snapshot(&snapshot);
    let mut name = i64_to_string(year);
    name.append("-");
    let m = i64_to_string(month);
    name.append(m.as_str());
    name.append("-");
    let d = i64_to_string(day);
    name.append(d.as_str());
    name.append("-RANKS.txt");
    let stamp: i64 = year * 10000 + month * 100 + day;
    store.put(stamp, snapshot);
    proof {
        assert(name@ =~= snapshot_file_name_spec(year as int, month as int, day as int));
    }
    (name, content)
}

/// An identifier a snapshot line can carry faithfully: no comma and no
/// line break anywhere, and no quote at either end.  Every identifier
/// the normalization yields from single-line input has this shape.
pub open spec fn valid_snapshot_id(s: Seq<char>) -> bool {
    &&& forall|i: int| 0 <= i < s.len() ==> (s[i] != ',' && s[i] != '\n' && s[i] != '\r')
    &&& s.len() > 0 ==> s[0] != '"'
    &&& s.len() > 0 ==> s.last() != '"'
}

/// The line bodies a snapshot renders to, one per pair.
pub open spec fn bodies(s: Seq<(Seq<char>, Rank)>) -> Seq<Seq<char>> {
    s.map(|i: int, e: (Seq<char>, Rank)| line_body(e))
}

proof fn lemma_rank_name_chars(r: Rank)
    ensures
        rank_name_spec(r).len() > 0,
        !is_space(rank_name_spec(r)[0]),
        !is_space(rank_name_spec(r).last()),
        forall|i: int|
            0 <= i < rank_name_spec(r).len() ==> (rank_name_spec(r)[i] != '\n' && rank_name_spec(
                r,
            )[i] != '\r'),
{
    reveal_strlit("Unranked");
    reveal_strlit("RedTopaz");
    reveal_strlit("Sapphire");
    reveal_strlit("Emerald");
    reveal_strlit("Ruby");
    reveal_strlit("Diamond");
    reveal_strlit("Dragonstone");
    reveal_strlit("Onyx");
    reveal_strlit("Zenyte");
    reveal_strlit("Death");
    reveal_strlit("Blood");
    reveal_strlit("Soul");
    reveal_strlit("Wrath");
}

proof fn lemma_line_body_ok(e: (Seq<char>, Rank))
    requires
        valid_snapshot_id(e.0),
    ensures
        line_body(e).len() > 0,
        line_body(e).last() != '\r',
        forall|i: int| 0 <= i < line_body(e).len() ==> line_body(e)[i] != '\n',
{
    reveal_strlit("\"");
    reveal_strlit("\", ");
    lemma_rank_name_chars(e.1);
    let b = line_body(e);
    let name = rank_name_spec(e.1);
    assert(b.len() == 1 + e.0.len() + 3 + name.len());
    assert(b.last() == name.last());
    assert forall|i: int| 0 <= i < b.len() implies b[i] != '\n' by {
        if i == 0 {
            assert(b[i] == '"');
        } else if i <= e.0.len() {
            assert(b[i] == e.0[i - 1]);
        } else if i == e.0.len() + 1 {
            assert(b[i] == '"');
        } else if i == e.0.len() + 2 {
            assert(b[i] == ',');
        } else if i == e.0.len() + 3 {
            assert(b[i] == ' ');
        } else {
            assert(b[i] == name[i - e.0.len() - 4]);
        }
    }
}

proof fn lemma_render_ends_newline(s: Seq<(Seq<char>, Rank)>)
    ensures
        s.len() == 0 ==> render_snapshot_spec(s).len() == 0,
        s.len() > 0 ==> render_snapshot_spec(s).len() > 0 && render_snapshot_spec(s).last()
            == '\n',
    decreases s.len(),
{
    reveal_strlit("\n");
    if s.len() > 0 {
        lemma_render_ends_newline(s.skip(1));
        let r = render_snapshot_spec(s);
        if s.skip(1).len() == 0 {
            assert(r.last() == "\n"@[0]);
        } else {
            assert(r.last() == render_snapshot_spec(s.skip(1)).last());
        }
    }
}

/// The lines of a rendered snapshot are exactly its line bodies.
proof fn lemma_lines_of_render(s: Seq<(Seq<char>, Rank)>)
    requires
        forall|i: int| 0 <= i < s.len() ==> valid_snapshot_id((#[trigger] s[i]).0),
    ensures
        spec_lines(render_snapshot_spec(s)) == bodies(s),
    decreases s.len(),
{
    reveal_strlit("\n");
    if s.len() == 0 {
        assert(spec_lines(render_snapshot_spec(s)) =~= bodies(s));
    } else {
        let body0 = line_body(s[0]);
        let rest = render_snapshot_spec(s.skip(1));
        let r = render_snapshot_spec(s);
        assert(r == body0 + "\n"@ + rest);
        lemma_line_body_ok(s[0]);
        lemma_render_ends_newline(s);
        lemma_render_ends_newline(s.skip(1));
        assert(forall|i: int| 0 <= i < s.skip(1).len() ==> valid_snapshot_id(
            (#[trigger] s.skip(1)[i]).0,
        ));
        lemma_lines_of_render(s.skip(1));
        assert("\n"@.len() == 1 && "\n"@[0] == '\n');
        if s.skip(1).len() == 0 {
            assert(rest =~= Seq::<char>::empty());
            assert(r.last() == '\n');
            assert(r.drop_last() =~= body0);
            lemma_split_char_no_sep(body0, '\n');
            assert(split_char(r.drop_last(), '\n') == seq![body0]);
            assert(strip_cr(body0) == body0);
            assert(spec_lines(r) =~= bodies(s));
        } else {
            assert(rest.last() == '\n');
            assert(r.last() == '\n');
            assert(r.drop_last() =~= body0 + seq!['\n'] + rest.drop_last());
            lemma_split_char_line(body0, rest.drop_last(), '\n');
            assert(split_char(r.drop_last(), '\n') == seq![body0] + split_char(
                rest.drop_last(),
                '\n',
            ));
            assert(spec_lines(rest) == split_char(rest.drop_last(), '\n').map(
                |i: int, l: Seq<char>| strip_cr(l),
            ));
            assert(strip_cr(body0) == body0);
            assert(spec_lines(r) =~= seq![body0] + spec_lines(rest));
            assert(seq![body0] + bodies(s.skip(1)) =~= bodies(s));
        }
    }
}

/// Parsing one rendered line body gives the pair back.
proof fn lemma_parse_line_body(e: (Seq<char>, Rank))
    requires
        valid_snapshot_id(e.0),
    ensures
        parse_line_spec(line_body(e)) == seq![e],
{
    reveal_strlit("\"");
    reveal_strlit("\", ");
    let id = e.0;
    let name = rank_name_spec(e.1);
    let b = line_body(e);
    lemma_rank_name_chars(e.1);
    assert(b.len() == id.len() + 4 + name.len());
    let cpos = id.len() as int + 2;
    assert(b[cpos] == ',');
    assert forall|i: int| 0 <= i < cpos implies b[i] != ',' by {
        if i == 0 {
            assert(b[i] == '"');
        } else if i <= id.len() {
            assert(b[i] == id[i - 1]);
        } else {
            assert(b[i] == '"');
        }
    }
    lemma_find_char(b, ',');
    let f = find_char(b, ',');
    assert(f == cpos) by {
        if f == -1 {
            assert(b[cpos] != ',');
        } else if f < cpos {
            assert(b[f] == ',');
        } else if f > cpos {
            assert(b[cpos] != ',');
        }
    }
    let left = b.take(f);
    let right = b.skip(f + 1);
    assert(left =~= "\""@ + id + "\""@);
    assert(right =~= seq![' '] + name);
    // the identifier reads back unchanged
    assert(normalize_id(left) == id) by {
        assert(forall|i: int| 0 <= i < left.len() ==> left[i] != ',') by {
            assert(forall|i: int| 1 <= i <= id.len() ==> left[i] == id[i - 1]);
        }
        lemma_strip_commas_id(left);
        assert(left[0] == '"');
        assert(left.last() == '"');
        assert(!is_space('"'));
        assert(trim_left_ws(left) == left);
        assert(trim_right_ws(left) == left);
        let inner = left.skip(1);
        assert(inner =~= id + "\""@);
        assert(trim_left_q(left) == trim_left_q(inner));
        if id.len() == 0 {
            assert(inner =~= "\""@);
            assert(inner.len() == 1 && inner[0] == '"');
            assert(trim_left_q(inner) == trim_left_q(inner.skip(1)));
            assert(inner.skip(1) =~= Seq::<char>::empty());
            assert(trim_left_q(inner) =~= Seq::<char>::empty());
            assert(trim_right_q(Seq::<char>::empty()) =~= Seq::<char>::empty());
            assert(normalize_id(left) =~= id);
        } else {
            assert(inner[0] == id[0]);
            assert(inner[0] != '"');
            assert(trim_left_q(inner) == inner);
            assert(inner.last() == '"');
            assert(inner.drop_last() =~= id);
            assert(trim_right_q(inner) == trim_right_q(id));
            assert(id.last() != '"');
            assert(trim_right_q(id) == id);
            assert(normalize_id(left) =~= id);
        }
    }
    // the tier name reads back as the tier
    assert(rank_from_name_spec(trim_right_ws(trim_left_ws(right))) == e.1) by {
        assert(right[0] == ' ');
        assert(is_space(' '));
        assert(right.skip(1) =~= name);
        assert(trim_left_ws(right) == trim_left_ws(name));
        assert(name.len() > 0 && !is_space(name[0]));
        assert(trim_left_ws(name) == name);
        assert(!is_space(name.last()));
        assert(trim_right_ws(name) == name);
        lemma_rank_name_round_trip(e.1);
    }
    assert(parse_line_spec(b) =~= seq![e]);
}

proof fn lemma_parse_lines_map(s: Seq<(Seq<char>, Rank)>)
    requires
        forall|i: int| 0 <= i < s.len() ==> valid_snapshot_id((#[trigger] s[i]).0),
    ensures
        parse_lines_spec(bodies(s)) == s,
    decreases s.len(),
{
    if s.len() == 0 {
        assert(bodies(s) =~= Seq::<Seq<char>>::empty());
        assert(parse_lines_spec(bodies(s)) =~= s);
    } else {
        assert(forall|i: int| 0 <= i < s.drop_last().len() ==> valid_snapshot_id(
            (#[trigger] s.drop_last()[i]).0,
        ));
        lemma_parse_lines_map(s.drop_last());
        assert(bodies(s).drop_last() =~= bodies(s.drop_last()));
        assert(bodies(s).last() == line_body(s.last()));
        lemma_parse_line_body(s.last());
        assert(parse_lines_spec(bodies(s)) == parse_lines_spec(bodies(s).drop_last())
            + parse_line_spec(bodies(s).last()));
        assert(parse_lines_spec(bodies(s)) =~= s.drop_last() + seq![s.last()]);
        assert(s.drop_last() + seq![s.last()] =~= s);
    }
}

/// Normalizing any single-line raw identifier, with whatever commas,
/// quotes and surrounding whitespace it held, yields an identifier a
/// snapshot line carries faithfully.
pub proof fn lemma_normalize_id_valid(s: Seq<char>)
    requires
        forall|i: int| 0 <= i < s.len() ==> ((#[trigger] s[i]) != '\n' && s[i] != '\r'),
    ensures
        valid_snapshot_id(normalize_id(s)),
{
    let stripped = strip_commas(s);
    crate::text::lemma_strip_commas_chars(s);
    let t1 = trim_left_ws(stripped);
    let t2 = trim_right_ws(t1);
    let t3 = trim_left_q(t2);
    crate::text::lemma_trim_left_ws_chars(stripped, ',');
    crate::text::lemma_trim_left_ws_chars(stripped, '\n');
    crate::text::lemma_trim_left_ws_chars(stripped, '\r');
    crate::text::lemma_trim_right_ws_chars(t1, ',');
    crate::text::lemma_trim_right_ws_chars(t1, '\n');
    crate::text::lemma_trim_right_ws_chars(t1, '\r');
    crate::text::lemma_trim_left_q_chars(t2, ',');
    crate::text::lemma_trim_left_q_chars(t2, '\n');
    crate::text::lemma_trim_left_q_chars(t2, '\r');
    crate::text::lemma_trim_right_q_chars(t3, ',');
    crate::text::lemma_trim_right_q_chars(t3, '\n');
    crate::text::lemma_trim_right_q_chars(t3, '\r');
    crate::text::lemma_trim_left_q_head(t2);
    crate::text::lemma_trim_right_q_props(t3);
}

/// Round trip: a written snapshot reads back as the same pairs, and so
/// as the same identifier-to-tier mapping, for every identifier that a
/// snapshot line can carry.
pub proof fn lemma_snapshot_round_trip(s: Seq<(Seq<char>, Rank)>)
    requires
        forall|i: int| 0 <= i < s.len() ==> valid_snapshot_id((#[trigger] s[i]).0),
    ensures
        parse_snapshot_spec(render_snapshot_spec(s)) == s,
        as_map(parse_snapshot_spec(render_snapshot_spec(s))) == as_map(s),
{
    lemma_lines_of_render(s);
    lemma_parse_lines_map(s);
}

} // verus!
