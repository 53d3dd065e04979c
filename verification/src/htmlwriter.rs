//! Rendering evaluated scores into page text.  Only the text is built
//! here; writing it anywhere is the caller's business.

use vstd::prelude::*;
use crate::results::PlayerRecord;
use crate::score::{CatV, EntryV, EvaluatedHiscores, cats_view};
use crate::text::{dec_str, int_str, i64_to_string, normalize_id, u64_to_string};
use crate::rank::rank_name_spec;
use crate::results::process_results_into_frontend_data;

verus! {

/// One table row of the details page: entry name, score, points.
pub open spec fn entry_row_spec(e: EntryV) -> Seq<char> {
    "<tr><td>"@ + e.0 + "</td><td>"@ + int_str(e.1) + "</td><td>"@ + int_str(e.2)
        + "</td></tr>\n"@
}

pub open spec fn entry_rows_spec(es: Seq<EntryV>) -> Seq<char>
    decreases es.len(),
{
    if es.len() == 0 {
        Seq::empty()
    } else {
        entry_row_spec(es[0]) + entry_rows_spec(es.skip(1))
    }
}

proof fn lemma_entry_rows_push(es: Seq<EntryV>, e: EntryV)
    ensures
        entry_rows_spec(es.push(e)) == entry_rows_spec(es) + entry_row_spec(e),
    decreases es.len(),
{
    if es.len() == 0 {
        assert(es.push(e)[0] == e);
        assert(es.push(e).skip(1) =~= Seq::<EntryV>::empty());
        assert(entry_rows_spec(Seq::<EntryV>::empty()) == Seq::<char>::empty());
        assert(es =~= Seq::<EntryV>::empty());
        assert(entry_rows_spec(es.push(e)) =~= entry_rows_spec(es) + entry_row_spec(e));
    } else {
        assert(es.push(e)[0] == es[0]);
        assert(es.push(e).skip(1) =~= es.skip(1).push(e));
        lemma_entry_rows_push(es.skip(1), e);
        assert(entry_rows_spec(es.push(e)) == entry_row_spec(es[0]) + entry_rows_spec(
            es.skip(1).push(e),
        ));
        assert(entry_rows_spec(es.push(e)) =~= entry_rows_spec(es) + entry_row_spec(e));
    }
}

/// One category section of the details page.
pub open spec fn category_section_spec(c: CatV) -> Seq<char> {
    "<div class=\"category\">\n<h3>"@ + c.0
        + "</h3>\n<table>\n<tr><th>Entry</th><th>Score</th><th>Points</th></tr>\n"@
        + entry_rows_spec(c.1) + "</table>\n</div>\n"@
}

pub open spec fn category_sections_spec(cs: Seq<CatV>) -> Seq<char>
    decreases cs.len(),
{
    if cs.len() == 0 {
        Seq::empty()
    } else {
        category_section_spec(cs[0]) + category_sections_spec(cs.skip(1))
    }
}

proof fn lemma_category_sections_push(cs: Seq<CatV>, c: CatV)
    ensures
        category_sections_spec(cs.push(c)) == category_sections_spec(cs) + category_section_spec(
            c,
        ),
    decreases cs.len(),
{
    if cs.len() == 0 {
        assert(cs.push(c)[0] == c);
        assert(cs.push(c).skip(1) =~= Seq::<CatV>::empty());
        assert(category_sections_spec(Seq::<CatV>::empty()) == Seq::<char>::empty());
        assert(cs =~= Seq::<CatV>::empty());
        assert(category_sections_spec(cs.push(c)) =~= category_sections_spec(cs)
            + category_section_spec(c));
    } else {
        assert(cs.push(c)[0] == cs[0]);
        assert(cs.push(c).skip(1) =~= cs.skip(1).push(c));
        lemma_category_sections_push(cs.skip(1), c);
        assert(category_sections_spec(cs.push(c)) == category_section_spec(cs[0])
            + category_sections_spec(cs.skip(1).push(c)));
        assert(category_sections_spec(cs.push(c)) =~= category_sections_spec(cs)
            + category_section_spec(c));
    }
}

/// The whole details page for one player.
pub open spec fn details_page_spec(username: Seq<char>, cats: Seq<CatV>, points: int) -> Seq<
    char,
> {
    "<!DOCTYPE html>\n<html>\n<head>\n<link rel=\"stylesheet\" href=\"../../style.css\">\n</head>\n<body>\n<h1>Details for "@
        + username + "</h1>\n<h2>Total Points: "@ + int_str(points) + "</h2>\n"@
        + category_sections_spec(cats) + "</body>\n</html>\n"@
}

/// Renders the per-player details page: the total, then one table per
/// evaluated category with one row per entry.
pub fn generate_hiscores_details_page(username: &str, hiscores: &EvaluatedHiscores) -> (out:
    String)
    ensures
        out@ == details_page_spec(
            username@,
            cats_view(hiscores.categories@),
            hiscores.points as int,
        ),
{
    let ghost catsv = cats_view(hiscores.categories@);
    let mut out = String::from_str(
        "<!DOCTYPE html>\n<html>\n<head>\n<link rel=\"stylesheet\" href=\"../../style.css\">\n</head>\n<body>\n<h1>Details for ",
    );
    out.append(username);
    out.append("</h1>\n<h2>Total Points: ");
    let total = i64_to_string(hiscores.points);
    out.append(total.as_str());
    out.append("</h2>\n");
    let ghost header = out@;
    let n = hiscores.categories.len();
    let mut k: usize = 0;
    proof {
        assert(catsv.take(0) =~= Seq::<CatV>::empty());
        assert(out@ =~= header + category_sections_spec(catsv.take(0)));
    }
    while k < n
        invariant
            k <= n,
            n == hiscores.categories@.len(),
            catsv == cats_view(hiscores.categories@),
            catsv.len() == n,
            out@ == header + category_sections_spec(catsv.take(k as int)),
        decreases n - k,
    {
        let c = &hiscores.categories[k];
        let ghost cv = catsv[k as int];
        proof {
            assert(cv == (c.name@, c.evaluated_entries@.map(
                |j: int, e: crate::score::EvaluatedEntry| crate::score::entry_view(e),
            ), c.points as int));
        }
        out.append("<div class=\"category\">\n<h3>");
        out.append(c.name.as_str());
        out.append("</h3>\n<table>\n<tr><th>Entry</th><th>Score</th><th>Points</th></tr>\n");
        let ghost sec_head = out@;
        let m = c.evaluated_entries.len();
        let mut j: usize = 0;
        proof {
            assert(cv.1.take(0) =~= Seq::<EntryV>::empty());
            assert(out@ =~= sec_head + entry_rows_spec(cv.1.take(0)));
        }
        while j < m
            invariant
                j <= m,
                m == c.evaluated_entries@.len(),
                cv.1 == c.evaluated_entries@.map(
                    |x: int, e: crate::score::EvaluatedEntry| crate::score::entry_view(e),
                ),
                cv.1.len() == m,
                out@ == sec_head + entry_rows_spec(cv.1.take(j as int)),
            decreases m - j,
        {
            let e = &c.evaluated_entries[j];
            proof {
                assert(cv.1[j as int] == crate::score::entry_view(c.evaluated_entries@[j as int]));
            }
            out.append("<tr><td>");
            out.append(e.name.as_str());
            out.append("</td><td>");
            let sc = i64_to_string(e.score);
            out.append(sc.as_str());
            out.append("</td><td>");
            let pt = i64_to_string(e.points);
            out.append(pt.as_str());
            out.append("</td></tr>\n");
            proof {
                assert(cv.1.take(j as int + 1) =~= cv.1.take(j as int).push(cv.1[j as int]));
                lemma_entry_rows_push(cv.1.take(j as int), cv.1[j as int]);
                assert(out@ =~= sec_head + entry_rows_spec(cv.1.take(j as int + 1)));
            }
            j = j + 1;
        }
        out.append("</table>\n</div>\n");
        proof {
            assert(cv.1.take(m as int) =~= cv.1);
            assert(out@ =~= header + category_sections_spec(catsv.take(k as int))
                + category_section_spec(cv));
            assert(catsv.take(k as int + 1) =~= catsv.take(k as int).push(cv));
            lemma_category_sections_push(catsv.take(k as int), cv);
            assert(out@ =~= header + category_sections_spec(catsv.take(k as int + 1)));
        }
        k = k + 1;
    }
    out.append("</body>\n</html>\n");
    proof {
        assert(catsv.take(n as int) =~= catsv);
        assert(out@ =~= details_page_spec(username@, catsv, hiscores.points as int));
    }
    out
}

/// The abstract value of one presentation row.
pub type RowV = (Seq<char>, int, int, int, int, Seq<char>);

pub open spec fn row_view(r: (String, u32, u32, u32, u32, String)) -> RowV {
    (r.0@, r.1 as int, r.2 as int, r.3 as int, r.4 as int, r.5@)
}

/// The presentation rows a result list denotes.
pub open spec fn frontend_rows_spec(rs: Seq<PlayerRecord>) -> Seq<RowV> {
    rs.map(
        |i: int, r: PlayerRecord|
            (
                normalize_id(r.username@),
                (r.total_points as u32) as int,
                (r.skilling_points as u32) as int,
                (r.activities_points as u32) as int,
                (r.pvm_points as u32) as int,
                rank_name_spec(r.rank),
            ),
    )
}

/// One table row of the index page.
pub open spec fn index_row_spec(r: RowV) -> Seq<char> {
    "<tr onclick=\"goToDetailsPage('"@ + r.0 + "')\"><td>"@ + r.0 + "</td><td>"@ + dec_str(r.1)
        + "</td><td>"@ + dec_str(r.2) + "</td><td>"@ + dec_str(r.3) + "</td><td>"@ + dec_str(r.4)
        + "</td><td>"@ + r.5 + "</td></tr>\n"@
}

pub open spec fn index_rows_spec(rows: Seq<RowV>) -> Seq<char>
    decreases rows.len(),
{
    if rows.len() == 0 {
        Seq::empty()
    } else {
        index_row_spec(rows[0]) + index_rows_spec(rows.skip(1))
    }
}

proof fn lemma_index_rows_push(rows: Seq<RowV>, r: RowV)
    ensures
        index_rows_spec(rows.push(r)) == index_rows_spec(rows) + index_row_spec(r),
    decreases rows.len(),
{
    if rows.len() == 0 {
        assert(rows.push(r)[0] == r);
        assert(rows.push(r).skip(1) =~= Seq::<RowV>::empty());
        assert(index_rows_spec(Seq::<RowV>::empty()) == Seq::<char>::empty());
        assert(rows =~= Seq::<RowV>::empty());
        assert(index_rows_spec(rows.push(r)) =~= index_rows_spec(rows) + index_row_spec(r));
    } else {
        assert(rows.push(r)[0] == rows[0]);
        assert(rows.push(r).skip(1) =~= rows.skip(1).push(r));
        lemma_index_rows_push(rows.skip(1), r);
        assert(index_rows_spec(rows.push(r)) == index_row_spec(rows[0]) + index_rows_spec(
            rows.skip(1).push(r),
        ));
        assert(index_rows_spec(rows.push(r)) =~= index_rows_spec(rows) + index_row_spec(r));
    }
}

/// The head of the index page, up to the table body.
pub open spec fn index_header_spec() -> Seq<char> {
    "<!DOCTYPE html>\n<html lang=\"en\">\n<head>\n<meta charset=\"UTF-8\">\n<title>Clan Stats</title>\n<link rel=\"stylesheet\" href=\"style.css\">\n<script>\nfunction goToDetailsPage(username) {\nwindow.location.href = 'out/details/' + username + '.html';\n}\n</script>\n</head>\n<body>\n<h1>Clan Player Stats</h1>\n<table>\n<thead>\n<tr><th>Player Name</th><th>Total Points</th><th>Points from Skilling</th><th>Points from Clues and Activities</th><th>Points from PVM</th><th>Rank</th></tr>\n</thead>\n<tbody>\n"@
}

/// The whole index page over the given presentation rows.
pub open spec fn index_page_spec(rows: Seq<RowV>) -> Seq<char> {
    index_header_spec() + index_rows_spec(rows) + "</tbody>\n</table>\n</body>\n</html>\n"@
}

/// Renders the index page from presentation rows.
#[verifier::rlimit(50)]
pub fn render_index_page(data: &Vec<(String, u32, u32, u32, u32, String)>) -> (out: String)
    ensures
        out@ == index_page_spec(data@.map(|i: int, r: (String, u32, u32, u32, u32, String)| row_view(r))),
{
    let ghost rowsv = data@.map(|i: int, r: (String, u32, u32, u32, u32, String)| row_view(r));
    let mut out = String::from_str(
        "<!DOCTYPE html>\n<html lang=\"en\">\n<head>\n<meta charset=\"UTF-8\">\n<title>Clan Stats</title>\n<link rel=\"stylesheet\" href=\"style.css\">\n<script>\nfunction goToDetailsPage(username) {\nwindow.location.href = 'out/details/' + username + '.html';\n}\n</script>\n</head>\n<body>\n<h1>Clan Player Stats</h1>\n<table>\n<thead>\n<tr><th>Player Name</th><th>Total Points</th><th>Points from Skilling</th><th>Points from Clues and Activities</th><th>Points from PVM</th><th>Rank</th></tr>\n</thead>\n<tbody>\n",
    );
    proof {
        assert(out@ == index_header_spec());
    }
    let n = data.len();
    let mut i: usize = 0;
    proof {
        assert(rowsv.take(0) =~= Seq::<RowV>::empty());
        assert(out@ =~= index_header_spec() + index_rows_spec(rowsv.take(0)));
    }
    while i < n
        invariant
            i <= n,
            n == data@.len(),
            rowsv == data@.map(|x: int, r: (String, u32, u32, u32, u32, String)| row_view(r)),
            rowsv.len() == n,
            out@ == index_header_spec() + index_rows_spec(rowsv.take(i as int)),
        decreases n - i,
    {
        let row = &data[i];
        proof {
            assert(rowsv[i as int] == row_view(data@[i as int]));
        }
        out.append("<tr onclick=\"goToDetailsPage('");
        out.append(row.0.as_str());
        out.append("')\"><td>");
        out.append(row.0.as_str());
        out.append("</td><td>");
        let t = u64_to_string(row.1 as u64);
        out.append(t.as_str());
        out.append("</td><td>");
        let s = u64_to_string(row.2 as u64);
        out.append(s.as_str());
        out.append("</td><td>");
        let a = u64_to_string(row.3 as u64);
        out.append(a.as_str());
        out.append("</td><td>");
        let p = u64_to_string(row.4 as u64);
        out.append(p.as_str());
        out.append("</td><td>");
        out.append(row.5.as_str());
        out.append("</td></tr>\n");
        proof {
            assert(rowsv.take(i as int + 1) =~= rowsv.take(i as int).push(rowsv[i as int]));
            lemma_index_rows_push(rowsv.take(i as int), rowsv[i as int]);
            assert(out@ =~= index_header_spec() + index_rows_spec(rowsv.take(i as int + 1)));
        }
        i = i + 1;
    }
    out.append("</tbody>\n</table>\n</body>\n</html>\n");
    proof {
        assert(rowsv.take(n as int) =~= rowsv);
        assert(out@ =~= index_page_spec(rowsv));
    }
    out
}

/// Renders the index page for a result list: its presentation rows laid
/// out as a table.
pub fn generate_index_page(results: &Vec<PlayerRecord>) -> (out: String)
    ensures
        out@ == index_page_spec(frontend_rows_spec(results@)),
{
    let data = process_results_into_frontend_data(results);
    let out = render_index_page(&data);
    proof {
        assert(data@.map(|i: int, r: (String, u32, u32, u32, u32, String)| row_view(r))
            =~= frontend_rows_spec(results@));
    }
    out
}

} // verus!
