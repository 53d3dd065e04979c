//! Parsing one player's raw leaderboard text against the configured
//! categories and accumulating milestone points.
//!
//! Each configured entry consumes exactly one line of the payload, in
//! order, across all categories.  A line whose level field does not
//! parse as an integer ends the usable data for the player: the current
//! and all remaining categories are dropped and only fully evaluated
//! categories are kept.  For the designated skilling category the third
//! field carries the actual score; a parse failure there truncates the
//! same way.

use vstd::prelude::*;
use crate::milestone::{
    calc_out, calc_points, check_table, fits_i64, table_wf, CalcError, Milestone, WalkOut,
};
use crate::text::{
    field_of_line, int_str_val, is_int_str, parse_i64, spec_lines, split_char, split_lines, split_on,
    str_eq,
};

verus! {

/// One configured scoring entry: a name and its milestone table.
#[derive(Debug, Clone)]
pub struct Entry {
    pub name: String,
    pub milestones: Vec<Milestone>,
}

/// One configured category: a name and its ordered entries.
#[derive(Debug, Clone)]
pub struct HiScoreCategory {
    pub name: String,
    pub entries: Vec<Entry>,
}

/// The full configuration: an ordered list of categories.
#[derive(Debug, Clone)]
pub struct HiScoreStructure(pub Vec<HiScoreCategory>);

/// One parsed entry: its name, the clamped raw score, and the points it
/// earned.
#[derive(Debug)]
pub struct EvaluatedEntry {
    pub name: String,
    pub score: i64,
    pub points: i64,
}

/// One fully evaluated category with its summed points.
#[derive(Debug)]
pub struct EvaluatedCategory {
    pub name: String,
    pub evaluated_entries: Vec<EvaluatedEntry>,
    pub points: i64,
}

/// A player's evaluated categories and total points.
#[derive(Debug)]
pub struct EvaluatedHiscores {
    pub categories: Vec<EvaluatedCategory>,
    pub points: i64,
}

/// The abstract value of an evaluated entry: name, score, points.
pub type EntryV = (Seq<char>, int, int);

/// The abstract value of an evaluated category: name, entries, points.
pub type CatV = (Seq<char>, Seq<EntryV>, int);

pub open spec fn entry_view(e: EvaluatedEntry) -> EntryV {
    (e.name@, e.score as int, e.points as int)
}

pub open spec fn cat_view(c: EvaluatedCategory) -> CatV {
    (c.name@, c.evaluated_entries@.map(|j: int, e: EvaluatedEntry| entry_view(e)), c.points as int)
}

pub open spec fn cats_view(cs: Seq<EvaluatedCategory>) -> Seq<CatV> {
    cs.map(|i: int, c: EvaluatedCategory| cat_view(c))
}

/// Whether a string parses as an `i64`.
pub open spec fn parses_i64(s: Seq<char>) -> bool {
    is_int_str(s) && i64::MIN <= int_str_val(s) <= i64::MAX
}

/// Negative raw values are clamped to zero.
pub open spec fn clamp0(v: int) -> int {
    if v < 0 {
        0
    } else {
        v
    }
}

/// The raw score one payload line yields: the level field (field one)
/// must parse; for the skilling category the score is the third field,
/// elsewhere it is the level itself.  `None` means the line ends the
/// player's usable data.
pub open spec fn entry_score(line: Seq<char>, skilling: bool) -> Option<int> {
    let lvl = field_of_line(line, 1);
    if !parses_i64(lvl) {
        None
    } else if skilling {
        let sct = field_of_line(line, 2);
        if !parses_i64(sct) {
            None
        } else {
            Some(clamp0(int_str_val(sct)))
        }
    } else {
        Some(clamp0(int_str_val(lvl)))
    }
}

/// How evaluating one entry against the payload ends.
pub enum EntryEval {
    /// End of usable data: a missing line or an unparsable field.
    Abandon,
    /// The milestone walk failed.
    Fail(CalcError),
    /// A clamped score and the points it earned, which still fit the
    /// running category total.
    Value { score: int, points: int },
}

pub open spec fn eval_entry_spec(
    lines: Seq<Seq<char>>,
    cursor: int,
    milestones: Seq<Milestone>,
    skilling: bool,
    acc: int,
) -> EntryEval {
    if !(0 <= cursor < lines.len()) {
        EntryEval::Abandon
    } else {
        match entry_score(lines[cursor], skilling) {
            None => EntryEval::Abandon,
            Some(sc) => match calc_out(sc, milestones) {
                WalkOut::Done(v) => {
                    if fits_i64(acc + v) {
                        EntryEval::Value { score: sc, points: v }
                    } else {
                        EntryEval::Fail(CalcError::Overflow)
                    }
                },
                WalkOut::ZeroSentinel => EntryEval::Fail(CalcError::ZeroRewardSentinel),
                WalkOut::Overflow => EntryEval::Fail(CalcError::Overflow),
            },
        }
    }
}

/// How evaluating a category's entries ends.
pub enum CatEval {
    Done { entries: Seq<EntryV>, points: int },
    Abandon,
    Fail { entry: Seq<char>, err: CalcError },
}

pub open spec fn eval_entries_spec(
    lines: Seq<Seq<char>>,
    cursor: int,
    entries: Seq<Entry>,
    skilling: bool,
    acc: int,
) -> CatEval
    decreases entries.len(),
{
    if entries.len() == 0 {
        CatEval::Done { entries: seq![], points: acc }
    } else {
        let e = entries[0];
        match eval_entry_spec(lines, cursor, e.milestones@, skilling, acc) {
            EntryEval::Abandon => CatEval::Abandon,
            EntryEval::Fail(err) => CatEval::Fail { entry: e.name@, err },
            EntryEval::Value { score, points } => {
                match eval_entries_spec(lines, cursor + 1, entries.skip(1), skilling, acc + points) {
                    CatEval::Done { entries: es, points: p } => CatEval::Done {
                        entries: seq![(e.name@, score, points)] + es,
                        points: p,
                    },
                    CatEval::Abandon => CatEval::Abandon,
                    CatEval::Fail { entry, err } => CatEval::Fail { entry, err },
                }
            },
        }
    }
}

/// How evaluating the whole payload ends: a sheet of fully evaluated
/// categories with a total, or a configuration failure named after the
/// category (and entry) that caused it.
pub enum SheetEval {
    Done { cats: Seq<CatV>, total: int },
    Fail { category: Seq<char>, entry: Seq<char>, err: CalcError },
    TotalFail { category: Seq<char> },
}

pub open spec fn eval_cats_spec(
    lines: Seq<Seq<char>>,
    cursor: int,
    cats: Seq<HiScoreCategory>,
    total: int,
) -> SheetEval
    decreases cats.len(),
{
    if cats.len() == 0 {
        SheetEval::Done { cats: seq![], total }
    } else {
        let c = cats[0];
        match eval_entries_spec(lines, cursor, c.entries@, c.name@ == "Skilling"@, 0) {
            CatEval::Abandon => SheetEval::Done { cats: seq![], total },
            CatEval::Fail { entry, err } => SheetEval::Fail { category: c.name@, entry, err },
            CatEval::Done { entries: es, points: p } => {
                if !fits_i64(total + p) {
                    SheetEval::TotalFail { category: c.name@ }
                } else {
                    match eval_cats_spec(lines, cursor + c.entries@.len(), cats.skip(1), total + p) {
                        SheetEval::Done { cats: cs, total: t } => SheetEval::Done {
                            cats: seq![(c.name@, es, p)] + cs,
                            total: t,
                        },
                        SheetEval::Fail { category, entry, err } => SheetEval::Fail {
                            category,
                            entry,
                            err,
                        },
                        SheetEval::TotalFail { category } => SheetEval::TotalFail { category },
                    }
                }
            },
        }
    }
}

/// How one player's raw payload evaluates against a configuration.
pub open spec fn eval_player_spec(text: Seq<char>, config: HiScoreStructure) -> SheetEval {
    eval_cats_spec(spec_lines(text), 0, config.0@, 0)
}

/// A scoring failure, named after the configuration that caused it.
#[derive(Debug)]
pub enum ScoreError {
    /// A terminal sentinel with a zero reward was reached.
    ZeroRewardSentinel { category: String, entry: String },
    /// An entry's points or a category's running total left the `i64`
    /// range.
    PointsOverflow { category: String, entry: String },
    /// The player's grand total left the `i64` range.
    TotalOverflow { category: String },
}

spec fn prepend_entries(pre: Seq<EntryV>, o: CatEval) -> CatEval {
    match o {
        CatEval::Done { entries, points } => CatEval::Done { entries: pre + entries, points },
        _ => o,
    }
}

spec fn prepend_cats(pre: Seq<CatV>, o: SheetEval) -> SheetEval {
    match o {
        SheetEval::Done { cats, total } => SheetEval::Done { cats: pre + cats, total },
        _ => o,
    }
}

/// Prepending an element distributes over accumulation of entry views.
proof fn lemma_prepend_entries_push(pre: Seq<EntryV>, x: EntryV, o: CatEval)
    ensures
        prepend_entries(pre, prepend_entries(seq![x], o)) == prepend_entries(pre.push(x), o),
{
    match o {
        CatEval::Done { entries, points } => {
            assert(pre + (seq![x] + entries) =~= pre.push(x) + entries);
        },
        _ => {},
    }
}

/// Prepending an element distributes over accumulation of category views.
proof fn lemma_prepend_cats_push(pre: Seq<CatV>, x: CatV, o: SheetEval)
    ensures
        prepend_cats(pre, prepend_cats(seq![x], o)) == prepend_cats(pre.push(x), o),
{
    match o {
        SheetEval::Done { cats, total } => {
            assert(pre + (seq![x] + cats) =~= pre.push(x) + cats);
        },
        _ => {},
    }
}

/// Scores one player's raw leaderboard payload against the configured
/// categories, consuming one payload line per configured entry.
pub fn score_player(raw: &str, config: &HiScoreStructure) -> (r: Result<
    EvaluatedHiscores,
    ScoreError,
>)
    ensures
        match eval_player_spec(raw@, *config) {
            SheetEval::Done { cats, total } => {
                &&& r is Ok
                &&& cats_view(r->Ok_0.categories@) == cats
                &&& r->Ok_0.points as int == total
            },
            SheetEval::Fail { category, entry, err } => {
                &&& r is Err
                &&& match r->Err_0 {
                    ScoreError::ZeroRewardSentinel { category: c2, entry: e2 } => {
                        err == CalcError::ZeroRewardSentinel && c2@ == category && e2@ == entry
                    },
                    ScoreError::PointsOverflow { category: c2, entry: e2 } => {
                        err == CalcError::Overflow && c2@ == category && e2@ == entry
                    },
                    ScoreError::TotalOverflow { .. } => false,
                }
            },
            SheetEval::TotalFail { category } => {
                &&& r is Err
                &&& match r->Err_0 {
                    ScoreError::TotalOverflow { category: c2 } => c2@ == category,
                    _ => false,
                }
            },
        },
{
    let lines = split_lines(raw);
    let ghost linesv = spec_lines(raw@);
    let ghost catsv = config.0@;
    let mut categories: Vec<EvaluatedCategory> = Vec::new();
    let mut total: i64 = 0;
    let mut cursor: usize = 0;
    let mut abandoned: bool = false;
    let ncats = config.0.len();
    let mut k: usize = 0;
    proof {
        assert(catsv.skip(0) =~= catsv);
        assert(cats_view(categories@) =~= Seq::<CatV>::empty());
        match eval_cats_spec(linesv, 0, catsv, 0) {
            SheetEval::Done { cats, total: t } => {
                assert(cats_view(categories@) + cats =~= cats);
            },
            _ => {},
        }
    }
    while k < ncats && !abandoned
        invariant
            k <= ncats,
            ncats == catsv.len(),
            catsv == config.0@,
            linesv == spec_lines(raw@),
            lines.deep_view() == linesv,
            cursor <= lines@.len(),
            eval_cats_spec(linesv, 0, catsv, 0) == if abandoned {
                SheetEval::Done { cats: cats_view(categories@), total: total as int }
            } else {
                prepend_cats(
                    cats_view(categories@),
                    eval_cats_spec(linesv, cursor as int, catsv.skip(k as int), total as int),
                )
            },
        decreases ncats - k,
    {
        let c = &config.0[k];
        let skilling = str_eq(c.name.as_str(), "Skilling");
        let nentries = c.entries.len();
        let mut es: Vec<EvaluatedEntry> = Vec::new();
        let mut cpts: i64 = 0;
        let mut j: usize = 0;
        let ghost cat_cursor = cursor as int;
        let ghost entsv = c.entries@;
        proof {
            assert(entsv.skip(0) =~= entsv);
            assert(es@.map(|x: int, ev: EvaluatedEntry| entry_view(ev)) =~= Seq::<EntryV>::empty());
            match eval_entries_spec(linesv, cat_cursor, entsv, skilling, 0) {
                CatEval::Done { entries, points } => {
                    assert(Seq::<EntryV>::empty() + entries =~= entries);
                },
                _ => {},
            }
        }
        while j < nentries && !abandoned
            invariant
                j <= nentries,
                0 <= k < catsv.len(),
                catsv == config.0@,
                linesv == spec_lines(raw@),
                lines.deep_view() == linesv,
                cursor <= lines@.len(),
                nentries == entsv.len(),
                entsv == catsv[k as int].entries@,
                c.entries@ == entsv,
                c.name@ == catsv[k as int].name@,
                skilling == (catsv[k as int].name@ == "Skilling"@),
                !abandoned ==> cursor as int == cat_cursor + j,
                eval_entries_spec(linesv, cat_cursor, entsv, skilling, 0) == if abandoned {
                    CatEval::Abandon
                } else {
                    prepend_entries(
                        es@.map(|x: int, ev: EvaluatedEntry| entry_view(ev)),
                        eval_entries_spec(
                            linesv,
                            cursor as int,
                            entsv.skip(j as int),
                            skilling,
                            cpts as int,
                        ),
                    )
                },
                eval_cats_spec(linesv, 0, catsv, 0) == prepend_cats(
                    cats_view(categories@),
                    eval_cats_spec(linesv, cat_cursor, catsv.skip(k as int), total as int),
                ),
            decreases nentries - j,
        {
            let e = &c.entries[j];
            let ghost erest = entsv.skip(j as int);
            let ghost cur0 = cursor as int;
            let ghost esv = es@.map(|x: int, ev: EvaluatedEntry| entry_view(ev));
            proof {
                assert(erest[0] == entsv[j as int]);
                assert(erest.skip(1) =~= entsv.skip(j as int + 1));
            }
            if cursor >= lines.len() {
                proof {
                    assert(eval_entry_spec(linesv, cur0, entsv[j as int].milestones@, skilling, cpts as int)
                        == EntryEval::Abandon);
                    assert(eval_entries_spec(linesv, cur0, erest, skilling, cpts as int)
                        == CatEval::Abandon);
                }
                abandoned = true;
            } else {
                let line = &lines[cursor];
                let ghost linev = linesv[cur0];
                proof {
                    assert(line@ == linesv[cur0]);
                }
                cursor = cursor + 1;
                let fields = split_on(line.as_str(), ',');
                proof {
                    assert(fields.deep_view() == split_char(linev, ','));
                    reveal_strlit("");
                    assert(""@ =~= Seq::<char>::empty());
                }
                let lvl_parsed: Option<i64> = if fields.len() > 1 {
                    let f1 = &fields[1];
                    proof {
                        assert(f1@ == fields.deep_view()[1]);
                        assert(f1@ == field_of_line(linev, 1));
                    }
                    parse_i64(f1.as_str())
                } else {
                    proof {
                        assert(field_of_line(linev, 1) =~= ""@);
                    }
                    parse_i64("")
                };
                match lvl_parsed {
                    None => {
                        proof {
                            assert(entry_score(linev, skilling) is None);
                            assert(eval_entry_spec(linesv, cur0, entsv[j as int].milestones@, skilling, cpts as int)
                                == EntryEval::Abandon);
                            assert(eval_entries_spec(linesv, cur0, erest, skilling, cpts as int)
                                == CatEval::Abandon);
                        }
                        abandoned = true;
                    },
                    Some(lv) => {
                        let level: i64 = if lv < 0 {
                            0
                        } else {
                            lv
                        };
                        let score_opt: Option<i64> = if skilling {
                            let sc_parsed: Option<i64> = if fields.len() > 2 {
                                let f2 = &fields[2];
                                proof {
                                    assert(f2@ == fields.deep_view()[2]);
                                    assert(f2@ == field_of_line(linev, 2));
                                }
                                parse_i64(f2.as_str())
                            } else {
                                proof {
                                    assert(field_of_line(linev, 2) =~= ""@);
                                }
                                parse_i64("")
                            };
                            match sc_parsed {
                                None => None,
                                Some(sv) => Some(
                                    if sv < 0 {
                                        0
                                    } else {
                                        sv
                                    },
                                ),
                            }
                        } else {
                            Some(level)
                        };
                        match score_opt {
                            None => {
                                proof {
                                    assert(entry_score(linev, skilling) is None);
                                    assert(eval_entry_spec(linesv, cur0, entsv[j as int].milestones@, skilling, cpts as int)
                                        == EntryEval::Abandon);
                                    assert(eval_entries_spec(linesv, cur0, erest, skilling, cpts as int)
                                        == CatEval::Abandon);
                                }
                                abandoned = true;
                            },
                            Some(score) => {
                                proof {
                                    assert(entry_score(linev, skilling) == Some(score as int));
                                }
                                let res = calc_points(score, &e.milestones);
                                let ghost ee = eval_entry_spec(
                                    linesv,
                                    cur0,
                                    entsv[j as int].milestones@,
                                    skilling,
                                    cpts as int,
                                );
                                match res {
                                    Err(err) => {
                                        proof {
                                            assert(ee == EntryEval::Fail(err));
                                            assert(eval_entries_spec(linesv, cur0, erest, skilling, cpts as int)
                                                == (CatEval::Fail { entry: entsv[j as int].name@, err }));
                                            assert(eval_entries_spec(linesv, cat_cursor, entsv, skilling, 0)
                                                == (CatEval::Fail { entry: entsv[j as int].name@, err }));
                                            assert(catsv.skip(k as int)[0] == catsv[k as int]);
                                            assert(eval_cats_spec(linesv, cat_cursor, catsv.skip(k as int), total as int)
                                                == (SheetEval::Fail {
                                                    category: catsv[k as int].name@,
                                                    entry: entsv[j as int].name@,
                                                    err,
                                                }));
                                        }
                                        match err {
                                            CalcError::ZeroRewardSentinel => {
                                                return Err(ScoreError::ZeroRewardSentinel {
                                                    category: c.name.clone(),
                                                    entry: e.name.clone(),
                                                });
                                            },
                                            CalcError::Overflow => {
                                                return Err(ScoreError::PointsOverflow {
                                                    category: c.name.clone(),
                                                    entry: e.name.clone(),
                                                });
                                            },
                                        }
                                    },
                                    Ok(pts) => {
                                        match cpts.checked_add(pts) {
                                            None => {
                                                proof {
                                                    assert(ee == EntryEval::Fail(CalcError::Overflow));
                                                    assert(eval_entries_spec(linesv, cur0, erest, skilling, cpts as int)
                                                        == (CatEval::Fail {
                                                            entry: entsv[j as int].name@,
                                                            err: CalcError::Overflow,
                                                        }));
                                                    assert(eval_entries_spec(linesv, cat_cursor, entsv, skilling, 0)
                                                        == (CatEval::Fail {
                                                            entry: entsv[j as int].name@,
                                                            err: CalcError::Overflow,
                                                        }));
                                                    assert(catsv.skip(k as int)[0] == catsv[k as int]);
                                                    assert(eval_cats_spec(linesv, cat_cursor, catsv.skip(k as int), total as int)
                                                        == (SheetEval::Fail {
                                                            category: catsv[k as int].name@,
                                                            entry: entsv[j as int].name@,
                                                            err: CalcError::Overflow,
                                                        }));
                                                }
                                                return Err(ScoreError::PointsOverflow {
                                                    category: c.name.clone(),
                                                    entry: e.name.clone(),
                                                });
                                            },
                                            Some(np) => {
                                                let ghost x: EntryV = (
                                                    entsv[j as int].name@,
                                                    score as int,
                                                    pts as int,
                                                );
                                                proof {
                                                    assert(ee == (EntryEval::Value {
                                                        score: score as int,
                                                        points: pts as int,
                                                    }));
                                                    assert(eval_entries_spec(linesv, cur0, erest, skilling, cpts as int)
                                                        == prepend_entries(
                                                            seq![x],
                                                            eval_entries_spec(
                                                                linesv,
                                                                cur0 + 1,
                                                                entsv.skip(j as int + 1),
                                                                skilling,
                                                                cpts as int + pts as int,
                                                            ),
                                                        ));
                                                    lemma_prepend_entries_push(
                                                        esv,
                                                        x,
                                                        eval_entries_spec(
                                                            linesv,
                                                            cur0 + 1,
                                                            entsv.skip(j as int + 1),
                                                            skilling,
                                                            cpts as int + pts as int,
                                                        ),
                                                    );
                                                }
                                                es.push(EvaluatedEntry {
                                                    name: e.name.clone(),
                                                    score,
                                                    points: pts,
                                                });
                                                proof {
                                                    assert(es@.map(|y: int, ev: EvaluatedEntry| entry_view(ev))
                                                        =~= esv.push(x));
                                                }
                                                cpts = np;
                                            },
                                        }
                                    },
                                }
                            },
                        }
                    },
                }
            }
            j = j + 1;
        }
        if !abandoned {
            proof {
                assert(entsv.skip(nentries as int) =~= Seq::<Entry>::empty());
                assert(eval_entries_spec(
                    linesv,
                    cursor as int,
                    entsv.skip(nentries as int),
                    skilling,
                    cpts as int,
                ) == (CatEval::Done { entries: Seq::<EntryV>::empty(), points: cpts as int }));
                assert(es@.map(|x: int, ev: EvaluatedEntry| entry_view(ev))
                    + Seq::<EntryV>::empty() =~= es@.map(|x: int, ev: EvaluatedEntry| entry_view(ev)));
                assert(eval_entries_spec(linesv, cat_cursor, entsv, skilling, 0) == (CatEval::Done {
                    entries: es@.map(|x: int, ev: EvaluatedEntry| entry_view(ev)),
                    points: cpts as int,
                }));
                assert(catsv.skip(k as int)[0] == catsv[k as int]);
                assert(catsv.skip(k as int).skip(1) =~= catsv.skip(k as int + 1));
            }
            match total.checked_add(cpts) {
                None => {
                    proof {
                        assert(eval_cats_spec(linesv, cat_cursor, catsv.skip(k as int), total as int)
                            == (SheetEval::TotalFail { category: catsv[k as int].name@ }));
                    }
                    return Err(ScoreError::TotalOverflow { category: c.name.clone() });
                },
                Some(nt) => {
                    let ghost old_cats = cats_view(categories@);
                    let ghost evs = es@.map(|x: int, ev: EvaluatedEntry| entry_view(ev));
                    let ghost xc: CatV = (catsv[k as int].name@, evs, cpts as int);
                    proof {
                        assert(eval_cats_spec(linesv, cat_cursor, catsv.skip(k as int), total as int)
                            == prepend_cats(
                                seq![xc],
                                eval_cats_spec(
                                    linesv,
                                    cat_cursor + entsv.len(),
                                    catsv.skip(k as int + 1),
                                    total as int + cpts as int,
                                ),
                            ));
                        lemma_prepend_cats_push(
                            old_cats,
                            xc,
                            eval_cats_spec(
                                linesv,
                                cat_cursor + entsv.len(),
                                catsv.skip(k as int + 1),
                                total as int + cpts as int,
                            ),
                        );
                    }
                    let cat = EvaluatedCategory {
                        name: c.name.clone(),
                        evaluated_entries: es,
                        points: cpts,
                    };
                    proof {
                        assert(cat_view(cat) == xc) by {
                            assert(cat.evaluated_entries@.map(|x: int, ev: EvaluatedEntry| entry_view(ev))
                                =~= evs);
                        }
                    }
                    categories.push(cat);
                    proof {
                        assert(cats_view(categories@) =~= old_cats.push(xc));
                    }
                    total = nt;
                },
            }
        } else {
            proof {
                assert(catsv.skip(k as int)[0] == catsv[k as int]);
                assert(eval_cats_spec(linesv, cat_cursor, catsv.skip(k as int), total as int)
                    == (SheetEval::Done { cats: Seq::<CatV>::empty(), total: total as int }));
                assert(cats_view(categories@) + Seq::<CatV>::empty() =~= cats_view(categories@));
            }
        }
        k = k + 1;
    }
    proof {
        if !abandoned {
            assert(catsv.skip(ncats as int) =~= Seq::<HiScoreCategory>::empty());
            assert(eval_cats_spec(linesv, cursor as int, catsv.skip(ncats as int), total as int)
                == (SheetEval::Done { cats: Seq::<CatV>::empty(), total: total as int }));
            assert(cats_view(categories@) + Seq::<CatV>::empty() =~= cats_view(categories@));
        }
    }
    Ok(EvaluatedHiscores { categories, points: total })
}

/// The position of the first entry whose milestone table is not
/// well-formed, or -1 when every table is.
pub open spec fn first_bad_entry(entries: Seq<Entry>) -> int
    decreases entries.len(),
{
    if entries.len() == 0 {
        -1
    } else if !table_wf(entries[0].milestones@) {
        0
    } else {
        let r = first_bad_entry(entries.skip(1));
        if r < 0 {
            -1
        } else {
            r + 1
        }
    }
}

/// The position of the first category holding a bad table, or -1.
pub open spec fn first_bad_cat(cats: Seq<HiScoreCategory>) -> int
    decreases cats.len(),
{
    if cats.len() == 0 {
        -1
    } else if first_bad_entry(cats[0].entries@) >= 0 {
        0
    } else {
        let r = first_bad_cat(cats.skip(1));
        if r < 0 {
            -1
        } else {
            r + 1
        }
    }
}

/// A well-formed configuration: every milestone table is well-formed.
pub open spec fn config_wf(config: HiScoreStructure) -> bool {
    first_bad_cat(config.0@) == -1
}

proof fn lemma_first_bad_entry_none(entries: Seq<Entry>)
    requires
        forall|j: int| 0 <= j < entries.len() ==> table_wf((#[trigger] entries[j]).milestones@),
    ensures
        first_bad_entry(entries) == -1,
    decreases entries.len(),
{
    if entries.len() > 0 {
        assert(forall|j: int| 0 <= j < entries.skip(1).len() ==> entries.skip(1)[j]
            == entries[j + 1]);
        lemma_first_bad_entry_none(entries.skip(1));
    }
}

proof fn lemma_first_bad_entry_at(entries: Seq<Entry>, j: int)
    requires
        0 <= j < entries.len(),
        forall|q: int| 0 <= q < j ==> table_wf((#[trigger] entries[q]).milestones@),
        !table_wf(entries[j].milestones@),
    ensures
        first_bad_entry(entries) == j,
    decreases j,
{
    if j > 0 {
        assert(forall|q: int| 0 <= q < entries.skip(1).len() ==> entries.skip(1)[q]
            == entries[q + 1]);
        lemma_first_bad_entry_at(entries.skip(1), j - 1);
    }
}

proof fn lemma_first_bad_cat_none(cats: Seq<HiScoreCategory>)
    requires
        forall|i: int| 0 <= i < cats.len() ==> first_bad_entry((#[trigger] cats[i]).entries@)
            == -1,
    ensures
        first_bad_cat(cats) == -1,
    decreases cats.len(),
{
    if cats.len() > 0 {
        assert(forall|i: int| 0 <= i < cats.skip(1).len() ==> cats.skip(1)[i] == cats[i + 1]);
        lemma_first_bad_cat_none(cats.skip(1));
    }
}

proof fn lemma_first_bad_cat_at(cats: Seq<HiScoreCategory>, k: int)
    requires
        0 <= k < cats.len(),
        forall|q: int| 0 <= q < k ==> first_bad_entry((#[trigger] cats[q]).entries@) == -1,
        first_bad_entry(cats[k].entries@) >= 0,
    ensures
        first_bad_cat(cats) == k,
    decreases k,
{
    if k > 0 {
        assert(forall|q: int| 0 <= q < cats.skip(1).len() ==> cats.skip(1)[q] == cats[q + 1]);
        lemma_first_bad_cat_at(cats.skip(1), k - 1);
    }
}

/// A broken configuration, named after the first offending entry.
#[derive(Debug)]
pub enum ConfigError {
    /// The entry's milestone table has a sentinel that is not last, or
    /// a terminal sentinel whose reward is zero.
    InvalidMilestoneTable { category: String, entry: String },
}

/// Checks every milestone table of the configuration up front, so that
/// a zero-reward sentinel or a misplaced sentinel fails fast, before
/// any scoring, naming the offending entry.
pub fn validate_config(config: &HiScoreStructure) -> (r: Result<(), ConfigError>)
    ensures
        r is Ok <==> config_wf(*config),
        r matches Err(e) ==> {
            let k = first_bad_cat(config.0@);
            let j = first_bad_entry(config.0@[k].entries@);
            &&& 0 <= k < config.0@.len()
            &&& 0 <= j < config.0@[k].entries@.len()
            &&& e matches ConfigError::InvalidMilestoneTable { category, entry }
                && category@ == config.0@[k].name@ && entry@ == config.0@[k].entries@[j].name@
        },
{
    let ncats = config.0.len();
    let mut k: usize = 0;
    while k < ncats
        invariant
            k <= ncats,
            ncats == config.0@.len(),
            forall|q: int| 0 <= q < k ==> first_bad_entry((#[trigger] config.0@[q]).entries@)
                == -1,
        decreases ncats - k,
    {
        let c = &config.0[k];
        let nent = c.entries.len();
        let mut j: usize = 0;
        while j < nent
            invariant
                j <= nent,
                0 <= k < config.0@.len(),
                nent == c.entries@.len(),
                c.entries@ == config.0@[k as int].entries@,
                c.name@ == config.0@[k as int].name@,
                forall|q: int| 0 <= q < k ==> first_bad_entry(
                    (#[trigger] config.0@[q]).entries@,
                ) == -1,
                forall|q: int| 0 <= q < j ==> table_wf((#[trigger] c.entries@[q]).milestones@),
            decreases nent - j,
        {
            let e = &c.entries[j];
            if !check_table(&e.milestones) {
                proof {
                    lemma_first_bad_entry_at(c.entries@, j as int);
                    lemma_first_bad_cat_at(config.0@, k as int);
                }
                return Err(ConfigError::InvalidMilestoneTable {
                    category: c.name.clone(),
                    entry: e.name.clone(),
                });
            }
            j = j + 1;
        }
        proof {
            lemma_first_bad_entry_none(c.entries@);
        }
        k = k + 1;
    }
    proof {
        lemma_first_bad_cat_none(config.0@);
    }
    Ok(())
}

/// A well-formed configuration never produces a zero-reward sentinel
/// failure: scoring any payload against it either succeeds, truncates,
/// or reports an overflow, never that configuration error.
pub proof fn lemma_wf_config_no_zero_sentinel(text: Seq<char>, config: HiScoreStructure)
    requires
        config_wf(config),
    ensures
        !(eval_player_spec(text, config) matches SheetEval::Fail { category, entry, err: e }
            && e == CalcError::ZeroRewardSentinel),
{
    lemma_first_bad_cat_all(config.0@);
    lemma_eval_cats_no_zero_sentinel(spec_lines(text), 0, config.0@, 0);
}

proof fn lemma_first_bad_cat_all(cats: Seq<HiScoreCategory>)
    requires
        first_bad_cat(cats) == -1,
    ensures
        forall|i: int| 0 <= i < cats.len() ==> first_bad_entry((#[trigger] cats[i]).entries@)
            == -1,
    decreases cats.len(),
{
    if cats.len() > 0 {
        lemma_first_bad_cat_all(cats.skip(1));
        assert(forall|i: int| 1 <= i < cats.len() ==> cats[i] == cats.skip(1)[i - 1]);
    }
}

proof fn lemma_first_bad_entry_all(entries: Seq<Entry>)
    requires
        first_bad_entry(entries) == -1,
    ensures
        forall|j: int| 0 <= j < entries.len() ==> table_wf((#[trigger] entries[j]).milestones@),
    decreases entries.len(),
{
    if entries.len() > 0 {
        lemma_first_bad_entry_all(entries.skip(1));
        assert(forall|j: int| 1 <= j < entries.len() ==> entries[j] == entries.skip(1)[j - 1]);
    }
}

proof fn lemma_eval_entries_no_zero_sentinel(
    lines: Seq<Seq<char>>,
    cursor: int,
    entries: Seq<Entry>,
    skilling: bool,
    acc: int,
)
    requires
        first_bad_entry(entries) == -1,
    ensures
        !(eval_entries_spec(lines, cursor, entries, skilling, acc) matches CatEval::Fail {
            entry,
            err: e,
        } && e == CalcError::ZeroRewardSentinel),
    decreases entries.len(),
{
    if entries.len() > 0 {
        lemma_first_bad_entry_all(entries);
        assert(table_wf(entries[0].milestones@));
        match eval_entry_spec(lines, cursor, entries[0].milestones@, skilling, acc) {
            EntryEval::Value { score, points } => {
                assert(forall|j: int| 0 <= j < entries.skip(1).len() ==> entries.skip(1)[j]
                    == entries[j + 1]);
                lemma_first_bad_entry_none(entries.skip(1));
                lemma_eval_entries_no_zero_sentinel(
                    lines,
                    cursor + 1,
                    entries.skip(1),
                    skilling,
                    acc + points,
                );
            },
            EntryEval::Fail(err) => {
                if err == CalcError::ZeroRewardSentinel {
                    if 0 <= cursor < lines.len() {
                        match entry_score(lines[cursor], skilling) {
                            Some(sc) => {
                                if sc != 0 {
                                    crate::milestone::lemma_wf_no_zero_sentinel(
                                        sc,
                                        entries[0].milestones@,
                                        0,
                                    );
                                }
                            },
                            None => {},
                        }
                    }
                }
            },
            EntryEval::Abandon => {},
        }
    }
}

proof fn lemma_eval_cats_no_zero_sentinel(
    lines: Seq<Seq<char>>,
    cursor: int,
    cats: Seq<HiScoreCategory>,
    total: int,
)
    requires
        forall|i: int| 0 <= i < cats.len() ==> first_bad_entry((#[trigger] cats[i]).entries@)
            == -1,
    ensures
        !(eval_cats_spec(lines, cursor, cats, total) matches SheetEval::Fail {
            category,
            entry,
            err: e,
        } && e == CalcError::ZeroRewardSentinel),
    decreases cats.len(),
{
    if cats.len() > 0 {
        let c = cats[0];
        lemma_eval_entries_no_zero_sentinel(lines, cursor, c.entries@, c.name@ == "Skilling"@, 0);
        match eval_entries_spec(lines, cursor, c.entries@, c.name@ == "Skilling"@, 0) {
            CatEval::Done { entries: es, points: p } => {
                if fits_i64(total + p) {
                    assert(forall|i: int| 0 <= i < cats.skip(1).len() ==> cats.skip(1)[i]
                        == cats[i + 1]);
                    lemma_eval_cats_no_zero_sentinel(
                        lines,
                        cursor + c.entries@.len(),
                        cats.skip(1),
                        total + p,
                    );
                }
            },
            _ => {},
        }
    }
}

impl ScoreError {
    /// A human-readable description naming what failed where.
    pub fn message(&self) -> (out: String)
        ensures
            match *self {
                ScoreError::ZeroRewardSentinel { category, entry } => out@
                    == "zero-reward terminal milestone for entry '"@ + entry@
                    + "' in category '"@ + category@ + "'"@,
                ScoreError::PointsOverflow { category, entry } => out@
                    == "point total out of range at entry '"@ + entry@ + "' in category '"@
                    + category@ + "'"@,
                ScoreError::TotalOverflow { category } => out@
                    == "grand total out of range after category '"@ + category@ + "'"@,
            },
    {
        match self {
            ScoreError::ZeroRewardSentinel { category, entry } => {
                let mut out = String::from_str("zero-reward terminal milestone for entry '");
                out.append(entry.as_str());
                out.append("' in category '");
                out.append(category.as_str());
                out.append("'");
                out
            },
            ScoreError::PointsOverflow { category, entry } => {
                let mut out = String::from_str("point total out of range at entry '");
                out.append(entry.as_str());
                out.append("' in category '");
                out.append(category.as_str());
                out.append("'");
                out
            },
            ScoreError::TotalOverflow { category } => {
                let mut out = String::from_str("grand total out of range after category '");
                out.append(category.as_str());
                out.append("'");
                out
            },
        }
    }
}

impl ConfigError {
    /// A human-readable description naming the offending entry.
    pub fn message(&self) -> (out: String)
        ensures
            match *self {
                ConfigError::InvalidMilestoneTable { category, entry } => out@
                    == "invalid milestone table for entry '"@ + entry@ + "' in category '"@
                    + category@ + "'"@,
            },
    {
        match self {
            ConfigError::InvalidMilestoneTable { category, entry } => {
                let mut out = String::from_str("invalid milestone table for entry '");
                out.append(entry.as_str());
                out.append("' in category '");
                out.append(category.as_str());
                out.append("'");
                out
            },
        }
    }
}

} // verus!
