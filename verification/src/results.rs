//! Per-player result records: qualification, name-keyed category
//! lookup, ordering by total points, and projection into presentation
//! rows.

use vstd::prelude::*;
use crate::rank::{evaluate_rank, rank_name_spec, rank_of, Rank};
use crate::score::{cat_view, cats_view, CatV, EvaluatedHiscores};
use crate::text::{normalize_id, str_eq, trimmed_username};

verus! {

/// One qualifying player's totals and rank.
#[derive(Debug, Clone)]
pub struct PlayerRecord {
    pub username: String,
    pub total_points: i64,
    pub pvm_points: i64,
    pub skilling_points: i64,
    pub activities_points: i64,
    pub rank: Rank,
}

/// The points of the first category with the given name, or zero when
/// no category carries it.
pub open spec fn cat_points_spec(cats: Seq<CatV>, name: Seq<char>) -> int
    decreases cats.len(),
{
    if cats.len() == 0 {
        0
    } else if cats[0].0 == name {
        cats[0].2
    } else {
        cat_points_spec(cats.skip(1), name)
    }
}

/// Looks a category's points up by name rather than by position, so a
/// truncated category list yields zero instead of a misaligned value.
pub fn category_points(hiscores: &EvaluatedHiscores, name: &str) -> (r: i64)
    ensures
        r as int == cat_points_spec(cats_view(hiscores.categories@), name@),
{
    let ghost catsv = cats_view(hiscores.categories@);
    let n = hiscores.categories.len();
    let mut i: usize = 0;
    proof {
        assert(catsv.skip(0) =~= catsv);
    }
    while i < n
        invariant
            i <= n,
            n == hiscores.categories@.len(),
            catsv == cats_view(hiscores.categories@),
            catsv.len() == n,
            cat_points_spec(catsv, name@) == cat_points_spec(catsv.skip(i as int), name@),
        decreases n - i,
    {
        let c = &hiscores.categories[i];
        proof {
            assert(catsv[i as int] == cat_view(hiscores.categories@[i as int]));
            assert(catsv.skip(i as int)[0] == catsv[i as int]);
            assert(catsv.skip(i as int).skip(1) =~= catsv.skip(i as int + 1));
        }
        if str_eq(c.name.as_str(), name) {
            return c.points;
        }
        i = i + 1;
    }
    proof {
        assert(catsv.skip(n as int) =~= Seq::<CatV>::empty());
    }
    0
}

/// Builds the result record for one player, or `None` when the total is
/// too low to qualify: players with at most one point are excluded.
///
/// The username handed in is expected to be already normalized; the
/// three category names select the skilling, activities and pvm points
/// by name.
pub fn build_record(
    username: &str,
    hiscores: &EvaluatedHiscores,
    skilling_name: &str,
    activities_name: &str,
    pvm_name: &str,
) -> (r: Option<PlayerRecord>)
    ensures
        r is Some <==> hiscores.points > 1,
        r matches Some(rec) ==> {
            &&& rec.username@ == username@
            &&& rec.total_points == hiscores.points
            &&& rec.skilling_points as int == cat_points_spec(
                cats_view(hiscores.categories@),
                skilling_name@,
            )
            &&& rec.activities_points as int == cat_points_spec(
                cats_view(hiscores.categories@),
                activities_name@,
            )
            &&& rec.pvm_points as int == cat_points_spec(
                cats_view(hiscores.categories@),
                pvm_name@,
            )
            &&& rec.rank == rank_of(hiscores.points as int)
        },
{
    if hiscores.points > 1 {
        Some(
            PlayerRecord {
                username: String::from_str(username),
                total_points: hiscores.points,
                pvm_points: category_points(hiscores, pvm_name),
                skilling_points: category_points(hiscores, skilling_name),
                activities_points: category_points(hiscores, activities_name),
                rank: evaluate_rank(&hiscores.points),
            },
        )
    } else {
        None
    }
}

/// Descending order by total points over a prefix.
pub open spec fn sorted_desc(s: Seq<PlayerRecord>, k: int) -> bool {
    forall|a: int, b: int| 0 <= a < b < k ==> s[a].total_points >= s[b].total_points
}

/// Sorts the records by total points, highest first.  The collection of
/// records is unchanged, only their order moves.
pub fn sort_by_total_desc(results: &mut Vec<PlayerRecord>)
    ensures
        final(results)@.len() == old(results)@.len(),
        final(results)@.to_multiset() == old(results)@.to_multiset(),
        sorted_desc(final(results)@, final(results)@.len() as int),
{
    broadcast use vstd::multiset::group_multiset_axioms;

    let n = results.len();
    if n <= 1 {
        return;
    }
    let mut i: usize = 1;
    while i < n
        invariant
            1 <= i <= n,
            n == results@.len(),
            results@.to_multiset() == old(results)@.to_multiset(),
            sorted_desc(results@, i as int),
        decreases n - i,
    {
        let ghost before = results@;
        let x = results.remove(i);
        let mut p: usize = 0;
        while p < i && results[p].total_points >= x.total_points
            invariant
                p <= i,
                i < before.len(),
                results@ == before.remove(i as int),
                results@.len() == before.len() - 1,
                forall|q: int| 0 <= q < p ==> results@[q].total_points >= x.total_points,
            decreases i - p,
        {
            p = p + 1;
        }
        let ghost mid = results@;
        let ghost xv = x;
        let ghost xt = x.total_points;
        results.insert(p, x);
        proof {
            assert(results@ == mid.insert(p as int, xv));
            assert(results@.to_multiset() == before.to_multiset()) by {
                vstd::seq_lib::to_multiset_remove::<PlayerRecord>(before, i as int);
                vstd::seq_lib::to_multiset_insert::<PlayerRecord>(mid, p as int, xv);
                assert(before[i as int] == xv);
                assert(before.contains(xv)) by {
                    assert(before[i as int] == xv);
                }
                vstd::seq_lib::to_multiset_contains::<PlayerRecord>(before, xv);
                assert(before.to_multiset().count(xv) > 0);
                assert(before.to_multiset().remove(xv).insert(xv) =~= before.to_multiset());
            }
            assert(sorted_desc(results@, i as int + 1)) by {
                assert(forall|q: int| 0 <= q < p ==> results@[q] == mid[q]);
                assert(forall|q: int| p < q <= i ==> results@[q] == mid[q - 1]);
                assert(results@[p as int] == xv);
                assert(forall|q: int| 0 <= q < i ==> mid[q] == before.remove(i as int)[q]);
                assert(forall|q: int| 0 <= q < i ==> mid[q] == before[q]);
                if p < i {
                    assert(mid[p as int].total_points < xt);
                    assert(forall|q: int| p <= q < i ==> mid[q].total_points <= mid[p as int].total_points);
                }
            }
        }
        i = i + 1;
    }
}

/// Projects the result records into presentation rows: normalized name,
/// the four point totals as 32-bit values, and the rank tier's name.
pub fn process_results_into_frontend_data(results: &Vec<PlayerRecord>) -> (out: Vec<
    (String, u32, u32, u32, u32, String),
>)
    ensures
        out@.len() == results@.len(),
        forall|i: int|
            0 <= i < results@.len() ==> {
                &&& (#[trigger] out@[i]).0@ == normalize_id(results@[i].username@)
                &&& out@[i].1 == results@[i].total_points as u32
                &&& out@[i].2 == results@[i].skilling_points as u32
                &&& out@[i].3 == results@[i].activities_points as u32
                &&& out@[i].4 == results@[i].pvm_points as u32
                &&& out@[i].5@ == rank_name_spec(results@[i].rank)
            },
{
    let n = results.len();
    let mut out: Vec<(String, u32, u32, u32, u32, String)> = Vec::new();
    let mut i: usize = 0;
    while i < n
        invariant
            i <= n,
            n == results@.len(),
            out@.len() == i,
            forall|k: int|
                0 <= k < i ==> {
                    &&& (#[trigger] out@[k]).0@ == normalize_id(results@[k].username@)
                    &&& out@[k].1 == results@[k].total_points as u32
                    &&& out@[k].2 == results@[k].skilling_points as u32
                    &&& out@[k].3 == results@[k].activities_points as u32
                    &&& out@[k].4 == results@[k].pvm_points as u32
                    &&& out@[k].5@ == rank_name_spec(results@[k].rank)
                },
        decreases n - i,
    {
        let r = &results[i];
        let row = (
            trimmed_username(r.username.as_str()),
            #[verifier::truncate] (r.total_points as u32),
            #[verifier::truncate] (r.skilling_points as u32),
            #[verifier::truncate] (r.activities_points as u32),
            #[verifier::truncate] (r.pvm_points as u32),
            r.rank.name(),
        );
        out.push(row);
        i = i + 1;
    }
    out
}

} // verus!
